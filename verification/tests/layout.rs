use safer_ffi::headers::{Composite, Field, Language, Primitive, TypeLayout};

fn primitive(c_name: &str, csharp_name: &str) -> TypeLayout {
    TypeLayout::Primitive(Primitive {
        c_name: c_name.to_string(),
        csharp_name: csharp_name.to_string(),
        csharp_marshaler: None,
    })
}

fn boolean() -> TypeLayout {
    TypeLayout::Primitive(Primitive {
        c_name: "bool".to_string(),
        csharp_name: "bool".to_string(),
        csharp_marshaler: Some("UnmanagedType.U1".to_string()),
    })
}

fn pointer(pointee: TypeLayout, is_const: bool) -> TypeLayout {
    TypeLayout::Pointer { pointee: Box::new(pointee), is_const }
}

fn array(item: TypeLayout, len: usize) -> TypeLayout {
    TypeLayout::FixedArray { item: Box::new(item), len }
}

fn composite(name: &str, fields: Vec<(&str, TypeLayout)>) -> TypeLayout {
    TypeLayout::Composite(Composite {
        name: name.to_string(),
        docs: Vec::new(),
        fields: fields
            .into_iter()
            .map(|(name, ty)| Field { name: name.to_string(), ty })
            .collect(),
    })
}

#[test]
fn primitive_comes_before_the_variable() {
    let int32 = primitive("int32_t", "Int32");
    assert_eq!(int32.name_wrapping_var(Language::C, "x"), "int32_t x");
    assert_eq!(int32.name_wrapping_var(Language::Python, "x"), "int32_t x");
    assert_eq!(int32.name_wrapping_var(Language::CSharp, "x"), "Int32 x");
}

#[test]
fn pointer_to_const_keeps_the_qualifier_in_c() {
    let string_ref = pointer(primitive("char", "byte"), true);
    assert_eq!(string_ref.name_wrapping_var(Language::C, "fst"), "char const * fst");
    assert_eq!(string_ref.name_wrapping_var(Language::Python, "fst"), "char const * fst");
    assert_eq!(string_ref.name_wrapping_var(Language::CSharp, "fst"), "byte * fst");
}

#[test]
fn pointer_to_mut_has_no_qualifier() {
    let owned = pointer(primitive("char", "byte"), false);
    assert_eq!(owned.name_wrapping_var(Language::C, "it"), "char * it");
    assert_eq!(owned.name_wrapping_var(Language::CSharp, "it"), "byte * it");
}

#[test]
fn pointer_to_composite_names_the_struct() {
    let foo = pointer(composite("Foo", vec![("a", primitive("int32_t", "Int32"))]), false);
    assert_eq!(foo.name_wrapping_var(Language::C, "x"), "struct Foo * x");
    assert_eq!(foo.name_wrapping_var(Language::CSharp, "x"), "Foo * x");
}

#[test]
fn composite_by_value() {
    let foo = composite("Foo", vec![]);
    assert_eq!(foo.name_wrapping_var(Language::C, "x"), "struct Foo x");
    assert_eq!(foo.name_wrapping_var(Language::Python, "x"), "struct Foo x");
    assert_eq!(foo.name_wrapping_var(Language::CSharp, "x"), "Foo x");
}

#[test]
fn array_brackets_follow_the_variable() {
    let rows = array(primitive("int32_t", "Int32"), 4);
    assert_eq!(rows.name_wrapping_var(Language::C, "rows"), "int32_t rows[4]");
    assert_eq!(rows.name_wrapping_var(Language::CSharp, "rows"), "fixed Int32 rows[4]");
    let empty = array(primitive("uint8_t", "byte"), 0);
    assert_eq!(empty.name_wrapping_var(Language::C, "none"), "uint8_t none[0]");
    let large = array(primitive("uint8_t", "byte"), 1024);
    assert_eq!(large.name_wrapping_var(Language::C, "buf"), "uint8_t buf[1024]");
}

#[test]
fn array_of_arrays_keeps_the_outer_length_first() {
    let grid = array(array(primitive("int32_t", "Int32"), 3), 2);
    assert_eq!(grid.name_wrapping_var(Language::C, "grid"), "int32_t grid[2][3]");
}

#[test]
fn array_of_pointers_and_pointer_to_array_differ() {
    let array_of_pointers = array(pointer(primitive("int32_t", "Int32"), false), 3);
    assert_eq!(array_of_pointers.name_wrapping_var(Language::C, "x"), "int32_t * x[3]");
    let pointer_to_array = pointer(array(primitive("int32_t", "Int32"), 3), false);
    assert_eq!(pointer_to_array.name_wrapping_var(Language::C, "x"), "int32_t (* x)[3]");
    let const_pointer_to_array = pointer(array(primitive("int32_t", "Int32"), 3), true);
    assert_eq!(
        const_pointer_to_array.name_wrapping_var(Language::C, "x"),
        "int32_t (const * x)[3]"
    );
}

#[test]
fn pointer_to_pointer() {
    let argv = pointer(pointer(primitive("char", "byte"), true), false);
    assert_eq!(argv.name_wrapping_var(Language::C, "argv"), "char const * * argv");
}

#[test]
fn wrapping_a_whole_signature() {
    let owned = pointer(primitive("char", "byte"), false);
    assert_eq!(
        owned.name_wrapping_var(Language::C, "rust_concat (char const * fst)"),
        "char * rust_concat (char const * fst)"
    );
}

#[test]
fn only_primitives_have_a_marshaler() {
    assert_eq!(boolean().csharp_marshaler(), Some("UnmanagedType.U1".to_string()));
    assert_eq!(primitive("int32_t", "Int32").csharp_marshaler(), None);
    assert_eq!(pointer(boolean(), false).csharp_marshaler(), None);
    assert_eq!(array(boolean(), 2).csharp_marshaler(), None);
    assert_eq!(composite("Foo", vec![("flag", boolean())]).csharp_marshaler(), None);
}
