use safer_ffi::headers::{
    builder, Builder, CargoEnv, Composite, FfiExport, Field, FunctionArg, HashSetDefiner,
    HeaderError, Language, NameTransform, NamingConvention, Primitive, TypeLayout, WhereTo,
};

const BANNER: &str = "/*! \\file */\n/*******************************************\n *                                         *\n *  File auto-generated by `::safer_ffi`.  *\n *                                         *\n *  Do not manually edit this file.        *\n *                                         *\n *******************************************/\n";

fn primitive(c_name: &str, csharp_name: &str) -> TypeLayout {
    TypeLayout::Primitive(Primitive {
        c_name: c_name.to_string(),
        csharp_name: csharp_name.to_string(),
        csharp_marshaler: None,
    })
}

fn void() -> TypeLayout {
    primitive("void", "void")
}

fn int32() -> TypeLayout {
    primitive("int32_t", "Int32")
}

fn string_ref() -> TypeLayout {
    TypeLayout::Pointer { pointee: Box::new(primitive("char", "byte")), is_const: true }
}

fn owned_string() -> TypeLayout {
    TypeLayout::Pointer { pointee: Box::new(primitive("char", "byte")), is_const: false }
}

fn point() -> TypeLayout {
    TypeLayout::Composite(Composite {
        name: "Point".to_string(),
        docs: Vec::new(),
        fields: vec![
            Field { name: "x".to_string(), ty: int32() },
            Field { name: "y".to_string(), ty: int32() },
        ],
    })
}

fn argument(name: &str, ty: TypeLayout) -> FunctionArg {
    FunctionArg { name: name.to_string(), ty }
}

fn export(name: &str, docs: &[&str], args: Vec<FunctionArg>, ret_ty: TypeLayout) -> FfiExport {
    FfiExport {
        name: name.to_string(),
        docs: docs.iter().map(|line| line.to_string()).collect(),
        args,
        ret_ty,
    }
}

fn rust_concat() -> FfiExport {
    export(
        "rust_concat",
        &[],
        vec![argument("fst", string_ref()), argument("snd", string_ref())],
        owned_string(),
    )
}

fn rust_free() -> FfiExport {
    export("rust_free", &[], vec![argument("it", owned_string())], void())
}

fn no_env() -> CargoEnv {
    CargoEnv { crate_name: None, pkg_name: None }
}

fn env(crate_name: Option<&str>, pkg_name: Option<&str>) -> CargoEnv {
    CargoEnv {
        crate_name: crate_name.map(|name| name.to_string()),
        pkg_name: pkg_name.map(|name| name.to_string()),
    }
}

fn generate(config: Builder<'_, WhereTo>, exports: &Vec<FfiExport>, env: &CargoEnv) -> String {
    let mut definer = HashSetDefiner::new();
    config.generate_with_definer(&mut definer, exports, env).unwrap();
    definer.into_string()
}

struct Shout;

impl NameTransform for Shout {
    fn transform(&self, name: &str) -> String {
        name.to_uppercase()
    }
}

#[test]
fn builder_starts_with_nothing_set() {
    let fresh = builder();
    assert_eq!(fresh.guard, None);
    assert_eq!(fresh.banner, None);
    assert_eq!(fresh.language, None);
    assert!(fresh.naming_convention.is_none());
    assert_eq!(fresh.stable_header, None);
}

#[test]
fn each_setter_sets_its_own_field() {
    let config = builder()
        .with_guard("__G__")
        .with_banner("// b")
        .with_language(Language::CSharp)
        .with_naming_convention(NamingConvention::Prefix("p_".to_string()))
        .with_stable_header(false);
    assert_eq!(config.guard, Some("__G__"));
    assert_eq!(config.banner, Some("// b"));
    assert_eq!(config.language, Some(Language::CSharp));
    assert!(matches!(config.naming_convention, Some(NamingConvention::Prefix(ref p)) if p == "p_"));
    assert_eq!(config.stable_header, Some(false));
}

#[test]
fn to_writer_and_into_parts_keep_the_settings() {
    let with_target = builder().with_guard("__G__").with_stable_header(false).to_writer(7u8);
    assert_eq!(with_target.target, 7);
    let with_target = with_target.with_language(Language::Python);
    let (target, config) = with_target.into_parts();
    assert_eq!(target, 7);
    assert_eq!(config.guard, Some("__G__"));
    assert_eq!(config.language, Some(Language::Python));
    assert_eq!(config.stable_header, Some(false));
    assert_eq!(config.banner, None);
}

#[test]
fn lib_name_prefers_the_crate_name() {
    assert_eq!(
        Builder::lib_name(&env(Some("my_crate"), Some("my-package"))),
        Ok("my_crate".to_string())
    );
    assert_eq!(Builder::lib_name(&env(None, Some("my-ffi-lib"))), Ok("my_ffi_lib".to_string()));
    assert_eq!(Builder::lib_name(&env(Some("a-b"), None)), Ok("a-b".to_string()));
    assert_eq!(Builder::lib_name(&no_env()), Err(HeaderError::MissingLibraryName));
}

#[test]
fn pascal_cased_lib_name_drops_underscores() {
    let pascal = |name: &str| Builder::pascal_cased_lib_name(&env(Some(name), None)).unwrap();
    assert_eq!(pascal("my_ffi_lib"), "MyFfiLib");
    assert_eq!(pascal("lib"), "Lib");
    assert_eq!(pascal("a__b"), "A_b");
    assert_eq!(pascal("_a"), "_a");
    assert_eq!(pascal("a_"), "A");
    assert_eq!(pascal("Already"), "Already");
    assert_eq!(pascal("x_1y"), "X1y");
    assert_eq!(pascal(""), "");
    assert_eq!(
        Builder::pascal_cased_lib_name(&env(None, Some("my-ffi"))),
        Ok("MyFfi".to_string())
    );
    assert_eq!(Builder::pascal_cased_lib_name(&no_env()), Err(HeaderError::MissingLibraryName));
}

#[test]
fn guard_is_the_one_set_up_or_derived_from_the_library() {
    assert_eq!(builder().with_guard("__ASGARD__").guard(&no_env()), Ok("__ASGARD__".to_string()));
    assert_eq!(
        builder().with_guard("__ASGARD__").guard(&env(Some("lib"), None)),
        Ok("__ASGARD__".to_string())
    );
    assert_eq!(builder().guard(&env(Some("my_crate"), None)), Ok("__RUST_MY_CRATE__".to_string()));
    assert_eq!(builder().guard(&env(None, Some("my-crate2"))), Ok("__RUST_MY_CRATE2__".to_string()));
    assert_eq!(builder().guard(&env(Some("a.b c"), None)), Ok("__RUST_A_B_C__".to_string()));
    assert_eq!(builder().guard(&no_env()), Err(HeaderError::MissingLibraryName));
}

#[test]
fn banner_is_followed_by_a_line_feed() {
    let mut definer = HashSetDefiner::new();
    builder().write_banner(&mut definer);
    assert_eq!(definer.out, format!("{}\n", BANNER));
    let mut definer = HashSetDefiner::new();
    builder().with_banner("// mine").write_banner(&mut definer);
    assert_eq!(definer.out, "// mine\n");
}

#[test]
fn c_prelude_and_epilogue_hold_the_guard() {
    let config = builder().with_guard("__ASGARD__");
    let mut definer = HashSetDefiner::new();
    assert_eq!(config.write_prelude(&mut definer, &no_env()), Ok(()));
    assert_eq!(definer.out, "#ifndef __ASGARD__\n#define __ASGARD__\n\n\n");
    let mut definer = HashSetDefiner::new();
    assert_eq!(config.write_epilogue(&mut definer, &no_env()), Ok(()));
    assert_eq!(definer.out, "\n#endif /* __ASGARD__ */\n");
}

#[test]
fn c_prelude_with_the_default_guard() {
    let mut definer = HashSetDefiner::new();
    assert_eq!(builder().write_prelude(&mut definer, &env(None, Some("my-lib"))), Ok(()));
    assert_eq!(definer.out, "#ifndef __RUST_MY_LIB__\n#define __RUST_MY_LIB__\n\n\n");
}

#[test]
fn csharp_prelude_and_epilogue() {
    let config = builder().with_language(Language::CSharp);
    let env = env(Some("my_ffi"), None);
    let mut definer = HashSetDefiner::new();
    assert_eq!(config.write_prelude(&mut definer, &env), Ok(()));
    assert_eq!(
        definer.out,
        "namespace MyFfi {\nusing System;\nusing System.Runtime.InteropServices;\n\npublic unsafe partial class Ffi {\n    private const string RustLib = \"my_ffi\";\n}\n\n"
    );
    let mut definer = HashSetDefiner::new();
    assert_eq!(config.write_epilogue(&mut definer, &env), Ok(()));
    assert_eq!(definer.out, "\n} /* MyFfi */\n");
}

#[test]
fn python_prelude_and_epilogue_write_nothing() {
    let config = builder().with_language(Language::Python);
    let mut definer = HashSetDefiner::new();
    assert_eq!(config.write_prelude(&mut definer, &no_env()), Ok(()));
    assert_eq!(config.write_epilogue(&mut definer, &no_env()), Ok(()));
    assert_eq!(definer.out, "");
}

#[test]
fn phases_fail_without_the_library_name_they_need() {
    let mut definer = HashSetDefiner::new();
    assert_eq!(
        builder().write_prelude(&mut definer, &no_env()),
        Err(HeaderError::MissingLibraryName)
    );
    assert_eq!(
        builder().write_epilogue(&mut definer, &no_env()),
        Err(HeaderError::MissingLibraryName)
    );
    let csharp = builder().with_language(Language::CSharp).with_guard("__G__");
    assert_eq!(csharp.write_prelude(&mut definer, &no_env()), Err(HeaderError::MissingLibraryName));
    assert_eq!(
        csharp.write_epilogue(&mut definer, &no_env()),
        Err(HeaderError::MissingLibraryName)
    );
    assert_eq!(definer.out, "");
}

#[test]
fn generate_fails_before_writing_anything() {
    let mut definer = HashSetDefiner::new();
    definer.out.push_str("kept");
    let result = builder().generate_with_definer(&mut definer, &vec![rust_concat()], &no_env());
    assert_eq!(result, Err(HeaderError::MissingLibraryName));
    assert_eq!(definer.out, "kept");
    assert_eq!(definer.defines_set.len(), 0);
    let result = builder()
        .with_language(Language::CSharp)
        .with_guard("__G__")
        .generate_with_definer(&mut definer, &vec![rust_concat()], &no_env());
    assert_eq!(result, Err(HeaderError::MissingLibraryName));
    assert_eq!(definer.out, "kept");
}

#[test]
fn python_needs_no_library_name() {
    let text = generate(
        builder().with_language(Language::Python).with_banner("# header"),
        &vec![rust_free()],
        &no_env(),
    );
    assert_eq!(text, "# header\nvoid rust_free (char * it);\n\n");
}

#[test]
fn guard_round_trip() {
    let text = generate(builder().with_guard("__ASGARD__"), &vec![rust_concat()], &no_env());
    let after_banner = text.strip_prefix(BANNER).unwrap().strip_prefix("\n").unwrap();
    assert!(after_banner.starts_with("#ifndef __ASGARD__\n#define __ASGARD__\n"));
    assert!(text.ends_with("#endif /* __ASGARD__ */\n"));
    assert_eq!(text.lines().last(), Some("#endif /* __ASGARD__ */"));
}

#[test]
fn rust_concat_scenario() {
    let text = generate(builder().with_guard("__ASGARD__"), &vec![rust_concat()], &no_env());
    assert_eq!(
        text,
        format!(
            "{}{}{}{}",
            format!("{}\n", BANNER),
            "#ifndef __ASGARD__\n#define __ASGARD__\n\n\n",
            "char * rust_concat (char const * fst, char const * snd);\n\n",
            "\n#endif /* __ASGARD__ */\n",
        )
    );
    let declarations: Vec<&str> =
        text.lines().filter(|line| line.contains("rust_concat")).collect();
    assert_eq!(
        declarations,
        vec!["char * rust_concat (char const * fst, char const * snd);"]
    );
}

#[test]
fn documented_header_with_two_functions() {
    let concat = export(
        "rust_concat",
        &[" Concatenate two strings.", "", " The returned value must be freed with `rust_free`"],
        vec![argument("fst", string_ref()), argument("snd", string_ref())],
        owned_string(),
    );
    let free = export(
        "rust_free",
        &[" Frees a pointer obtained by calling `rust_concat`."],
        vec![argument("it", owned_string())],
        void(),
    );
    let text = generate(builder().with_guard("__ASGARD__"), &vec![free, concat], &no_env());
    assert_eq!(
        text,
        format!(
            "{}\n{}",
            BANNER,
            "#ifndef __ASGARD__\n#define __ASGARD__\n\n\n/** \\brief\n *  Concatenate two strings.\n * \n *  The returned value must be freed with `rust_free`\n */\nchar * rust_concat (char const * fst, char const * snd);\n\n/** \\brief\n *  Frees a pointer obtained by calling `rust_concat`.\n */\nvoid rust_free (char * it);\n\n\n#endif /* __ASGARD__ */\n"
        )
    );
}

#[test]
fn stable_header_does_not_depend_on_registration_order() {
    let make = |order: [usize; 3]| -> Vec<FfiExport> {
        order
            .iter()
            .map(|&i| match i {
                0 => rust_concat(),
                1 => rust_free(),
                _ => export("shift", &[], vec![argument("p", point())], point()),
            })
            .collect()
    };
    let reference = generate(builder().with_guard("__G__"), &make([0, 1, 2]), &no_env());
    for order in [[0, 2, 1], [1, 0, 2], [1, 2, 0], [2, 0, 1], [2, 1, 0]] {
        let text = generate(builder().with_guard("__G__"), &make(order), &no_env());
        assert_eq!(text, reference);
    }
    let concat = reference.find("rust_concat (").unwrap();
    let free = reference.find("rust_free (").unwrap();
    let shift = reference.find("shift (").unwrap();
    assert!(concat < free && free < shift);
}

#[test]
fn natural_order_is_the_registration_order_reversed() {
    let exports = vec![
        export("b", &[], Vec::new(), void()),
        export("c", &[], Vec::new(), void()),
        export("a", &[], Vec::new(), void()),
    ];
    let text = generate(
        builder().with_language(Language::Python).with_banner("").with_stable_header(false),
        &exports,
        &no_env(),
    );
    assert_eq!(text, "\nvoid a (void);\n\nvoid c (void);\n\nvoid b (void);\n\n");
    let text = generate(
        builder().with_language(Language::Python).with_banner(""),
        &exports,
        &no_env(),
    );
    assert_eq!(text, "\nvoid a (void);\n\nvoid b (void);\n\nvoid c (void);\n\n");
}

#[test]
fn of_two_exports_with_one_name_the_last_is_written() {
    let exports = vec![
        export("f", &[], vec![argument("old", int32())], void()),
        export("f", &[], vec![argument("new", int32())], void()),
    ];
    let text = generate(
        builder().with_language(Language::Python).with_banner(""),
        &exports,
        &no_env(),
    );
    assert_eq!(text, "\nvoid f (int32_t new);\n\n");
}

#[test]
fn composite_is_defined_once_before_its_first_use() {
    let exports = vec![
        export("norm", &[], vec![argument("p", point())], int32()),
        export("origin", &[], Vec::new(), point()),
        export(
            "shift",
            &[],
            vec![argument(
                "p",
                TypeLayout::Pointer { pointee: Box::new(point()), is_const: false },
            )],
            void(),
        ),
    ];
    for (lang, definition, uses) in [
        (Language::C, "struct Point {", ["struct Point p", "struct Point origin", "struct Point * p"]),
        (Language::CSharp, "struct Point {", ["Point p", "Point origin", "Point * p"]),
    ] {
        let text = generate(
            builder().with_language(lang).with_guard("__G__"),
            &exports,
            &env(Some("geometry"), None),
        );
        assert_eq!(text.matches(definition).count(), 1);
        let defined_at = text.find(definition).unwrap();
        for used in uses {
            assert!(defined_at < text.find(used).unwrap(), "{:?} in {:?}", used, lang);
        }
    }
}

#[test]
fn body_alone() {
    let mut definer = HashSetDefiner::new();
    builder().write_body(&mut definer, &vec![rust_free(), rust_concat()]);
    assert_eq!(
        definer.out,
        "char * rust_concat (char const * fst, char const * snd);\n\nvoid rust_free (char * it);\n\n"
    );
}

#[test]
fn empty_snapshot() {
    let text = generate(builder().with_guard("__G__").with_banner("//"), &Vec::new(), &no_env());
    assert_eq!(text, "//\n#ifndef __G__\n#define __G__\n\n\n\n#endif /* __G__ */\n");
}

#[test]
fn naming_convention_is_threaded_into_the_declarations() {
    let exports = vec![rust_free()];
    let text = generate(
        builder()
            .with_language(Language::Python)
            .with_banner("")
            .with_naming_convention(NamingConvention::Prefix("my_".to_string())),
        &exports,
        &no_env(),
    );
    assert_eq!(text, "\nvoid my_rust_free (char * it);\n\n");
    let text = generate(
        builder()
            .with_language(Language::Python)
            .with_banner("")
            .with_naming_convention(NamingConvention::Suffix("_v1".to_string())),
        &exports,
        &no_env(),
    );
    assert_eq!(text, "\nvoid rust_free_v1 (char * it);\n\n");
    let text = generate(
        builder()
            .with_language(Language::Python)
            .with_banner("")
            .with_naming_convention(NamingConvention::Custom(Box::new(Shout))),
        &exports,
        &no_env(),
    );
    assert_eq!(text, "\nvoid RUST_FREE (char * it);\n\n");
}

#[test]
fn naming_convention_does_not_change_the_order() {
    struct Mirror;
    impl NameTransform for Mirror {
        fn transform(&self, name: &str) -> String {
            name.chars().rev().collect()
        }
    }
    let exports =
        vec![export("az", &[], Vec::new(), void()), export("ba", &[], Vec::new(), void())];
    let text = generate(
        builder()
            .with_language(Language::Python)
            .with_banner("")
            .with_naming_convention(NamingConvention::Custom(Box::new(Mirror))),
        &exports,
        &no_env(),
    );
    assert_eq!(text, "\nvoid za (void);\n\nvoid ab (void);\n\n");
}

#[test]
fn csharp_header() {
    let text = generate(
        builder().with_language(Language::CSharp).with_banner("// generated"),
        &vec![export("origin", &[], Vec::new(), point())],
        &env(None, Some("geo-lib")),
    );
    assert_eq!(
        text,
        "// generated\nnamespace GeoLib {\nusing System;\nusing System.Runtime.InteropServices;\n\npublic unsafe partial class Ffi {\n    private const string RustLib = \"geo_lib\";\n}\n\n[StructLayout(LayoutKind.Sequential)]\npublic unsafe struct Point {\n    public Int32 x;\n    public Int32 y;\n}\n\npublic unsafe partial class Ffi {\n    [DllImport(RustLib, ExactSpelling = true)] public static unsafe extern\n    Point origin ();\n}\n\n\n} /* GeoLib */\n"
    );
}

#[test]
fn a_definer_that_found_a_type_defined_does_not_define_it() {
    let mut definer = HashSetDefiner::new();
    definer.defines_set.insert("Point".to_string());
    builder().write_body(&mut definer, &vec![export("origin", &[], Vec::new(), point())]);
    assert_eq!(definer.out, "struct Point origin (void);\n\n");
}

#[test]
fn default_banner_text() {
    assert_eq!(safer_ffi::headers::DEFAULT_BANNER, BANNER);
    assert!(BANNER.starts_with("/*! \\file */\n"));
    assert!(BANNER.ends_with("*/\n"));
}

#[test]
fn default_builder_has_nothing_set() {
    let fresh: Builder<'_, WhereTo> = Default::default();
    assert_eq!(fresh.guard, None);
    assert_eq!(fresh.banner, None);
    assert_eq!(fresh.language, None);
    assert!(fresh.naming_convention.is_none());
    assert_eq!(fresh.stable_header, None);
}

#[test]
fn defaults_are_c_and_the_stable_order() {
    let exports = vec![
        export("b", &[], Vec::new(), void()),
        export("a", &[], Vec::new(), void()),
    ];
    let text = generate(builder().with_banner(""), &exports, &env(Some("lib"), None));
    assert_eq!(
        text,
        "\n#ifndef __RUST_LIB__\n#define __RUST_LIB__\n\n\nvoid a (void);\n\nvoid b (void);\n\n\n#endif /* __RUST_LIB__ */\n"
    );
}
