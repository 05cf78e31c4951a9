use safer_ffi::headers::definitions::define_fields;
use safer_ffi::headers::{
    Composite, Definer, Field, HashSetDefiner, Language, Primitive, TypeLayout,
};

fn int32() -> TypeLayout {
    TypeLayout::Primitive(Primitive {
        c_name: "int32_t".to_string(),
        csharp_name: "Int32".to_string(),
        csharp_marshaler: None,
    })
}

fn pointer(pointee: TypeLayout) -> TypeLayout {
    TypeLayout::Pointer { pointee: Box::new(pointee), is_const: false }
}

fn array(item: TypeLayout, len: usize) -> TypeLayout {
    TypeLayout::FixedArray { item: Box::new(item), len }
}

fn field(name: &str, ty: TypeLayout) -> Field {
    Field { name: name.to_string(), ty }
}

fn composite(name: &str, docs: &[&str], fields: Vec<Field>) -> Composite {
    Composite {
        name: name.to_string(),
        docs: docs.iter().map(|line| line.to_string()).collect(),
        fields,
    }
}

fn point() -> TypeLayout {
    TypeLayout::Composite(composite(
        "Point",
        &[],
        vec![field("x", int32()), field("y", int32())],
    ))
}

fn segment() -> TypeLayout {
    TypeLayout::Composite(composite(
        "Segment",
        &[],
        vec![field("from", point()), field("to", pointer(point()))],
    ))
}

const POINT_C: &str = "struct Point {\n    int32_t x;\n    int32_t y;\n};\n\n";
const SEGMENT_C: &str = "struct Segment {\n    struct Point from;\n    struct Point * to;\n};\n\n";

fn defined(definer: &mut HashSetDefiner, name: &str) -> bool {
    !definer.insert(name)
}

#[test]
fn docs_become_a_comment_block() {
    let docs = vec![" A point.".to_string(), "".to_string(), " In the plane.".to_string()];
    assert_eq!(
        Language::C.render_docs(&docs),
        "/** \\brief\n *  A point.\n * \n *  In the plane.\n */\n"
    );
    assert_eq!(
        Language::Python.render_docs(&docs),
        "/** \\brief\n *  A point.\n * \n *  In the plane.\n */\n"
    );
    assert_eq!(
        Language::CSharp.render_docs(&docs),
        "/// <summary>\n///  A point.\n/// \n///  In the plane.\n/// </summary>\n"
    );
}

#[test]
fn no_docs_no_comment() {
    assert_eq!(Language::C.render_docs(&Vec::new()), "");
    assert_eq!(Language::CSharp.render_docs(&Vec::new()), "");
    assert_eq!(Language::Python.render_docs(&Vec::new()), "");
}

#[test]
fn struct_definition_in_each_language() {
    let documented = composite(
        "Point",
        &[" A point."],
        vec![field("x", int32()), field("y", int32())],
    );
    assert_eq!(
        Language::C.render_struct(&documented),
        "/** \\brief\n *  A point.\n */\nstruct Point {\n    int32_t x;\n    int32_t y;\n};\n\n"
    );
    assert_eq!(
        Language::Python.render_struct(&documented),
        "/** \\brief\n *  A point.\n */\nstruct Point {\n    int32_t x;\n    int32_t y;\n};\n\n"
    );
    assert_eq!(
        Language::CSharp.render_struct(&documented),
        "/// <summary>\n///  A point.\n/// </summary>\n[StructLayout(LayoutKind.Sequential)]\npublic unsafe struct Point {\n    public Int32 x;\n    public Int32 y;\n}\n\n"
    );
}

#[test]
fn struct_without_members() {
    let empty = composite("Unit", &[], Vec::new());
    assert_eq!(Language::C.render_struct(&empty), "struct Unit {\n};\n\n");
}

#[test]
fn emit_struct_writes_and_marks_nothing() {
    let mut definer = HashSetDefiner::new();
    definer.out().push_str("// before\n");
    let unit = composite("Unit", &[], Vec::new());
    Language::C.emit_struct(&mut definer, &unit);
    assert_eq!(definer.out, "// before\nstruct Unit {\n};\n\n");
    assert!(!defined(&mut definer, "Unit"));
}

#[test]
fn primitives_define_nothing() {
    let mut definer = HashSetDefiner::new();
    int32().define_self(Language::C, &mut definer);
    pointer(array(int32(), 3)).define_self(Language::C, &mut definer);
    assert_eq!(definer.out, "");
    assert_eq!(definer.defines_set.len(), 0);
}

#[test]
fn composite_is_defined_and_marked() {
    let mut definer = HashSetDefiner::new();
    point().define_self(Language::C, &mut definer);
    assert_eq!(definer.out, POINT_C);
    assert!(defined(&mut definer, "Point"));
}

#[test]
fn second_definition_is_a_no_op() {
    let mut definer = HashSetDefiner::new();
    point().define_self(Language::C, &mut definer);
    point().define_self(Language::C, &mut definer);
    pointer(point()).define_self(Language::C, &mut definer);
    assert_eq!(definer.out, POINT_C);
    assert_eq!(definer.defines_set.len(), 1);
}

#[test]
fn a_type_found_defined_is_not_written() {
    let mut definer = HashSetDefiner::new();
    assert!(definer.insert("Point"));
    point().define_self(Language::C, &mut definer);
    assert_eq!(definer.out, "");
}

#[test]
fn members_are_defined_before_the_type_and_once() {
    let mut definer = HashSetDefiner::new();
    segment().define_self(Language::C, &mut definer);
    assert_eq!(definer.out, format!("{}{}", POINT_C, SEGMENT_C));
    assert!(defined(&mut definer, "Point"));
    assert!(defined(&mut definer, "Segment"));
    assert_eq!(definer.defines_set.len(), 2);
}

#[test]
fn definition_is_reached_through_pointers_and_arrays() {
    let mut definer = HashSetDefiner::new();
    pointer(array(pointer(segment()), 2)).define_self(Language::C, &mut definer);
    assert_eq!(definer.out, format!("{}{}", POINT_C, SEGMENT_C));
}

#[test]
fn deep_nesting_defines_innermost_first() {
    let path = TypeLayout::Composite(composite(
        "Path",
        &[],
        vec![field("first", segment()), field("origin", point())],
    ));
    let mut definer = HashSetDefiner::new();
    path.define_self(Language::C, &mut definer);
    assert_eq!(
        definer.out,
        format!(
            "{}{}{}",
            POINT_C,
            SEGMENT_C,
            "struct Path {\n    struct Segment first;\n    struct Point origin;\n};\n\n"
        )
    );
}

#[test]
fn a_type_nested_in_itself_is_written_once() {
    // Not a layout that a producer may hand over; the ledger still holds.
    let inner = TypeLayout::Composite(composite("Node", &[], vec![field("value", int32())]));
    let outer = TypeLayout::Composite(composite("Node", &[], vec![field("next", pointer(inner))]));
    let mut definer = HashSetDefiner::new();
    outer.define_self(Language::C, &mut definer);
    assert_eq!(definer.out, "struct Node {\n    struct Node * next;\n};\n\n");
    assert_eq!(definer.defines_set.len(), 1);
}

#[test]
fn each_language_gets_its_own_definitions() {
    let mut c = HashSetDefiner::new();
    let mut csharp = HashSetDefiner::new();
    segment().define_self(Language::C, &mut c);
    segment().define_self(Language::CSharp, &mut csharp);
    assert_eq!(c.out.matches("struct Point {").count(), 1);
    assert_eq!(csharp.out.matches("public unsafe struct Point {").count(), 1);
    assert_eq!(
        csharp.out,
        "[StructLayout(LayoutKind.Sequential)]\npublic unsafe struct Point {\n    public Int32 x;\n    public Int32 y;\n}\n\n[StructLayout(LayoutKind.Sequential)]\npublic unsafe struct Segment {\n    public Point from;\n    public Point * to;\n}\n\n"
    );
}

#[test]
fn define_fields_goes_member_by_member() {
    let fields = vec![field("a", pointer(segment())), field("b", point()), field("n", int32())];
    let mut definer = HashSetDefiner::new();
    define_fields(&fields, Language::C, &mut definer);
    assert_eq!(definer.out, format!("{}{}", POINT_C, SEGMENT_C));
}

#[test]
fn define_self_by_its_entry_point() {
    let mut definer = HashSetDefiner::new();
    safer_ffi::headers::__define_self__(&mut definer, Language::C, &segment());
    assert_eq!(definer.out, format!("{}{}", POINT_C, SEGMENT_C));
}
