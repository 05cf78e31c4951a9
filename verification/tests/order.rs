use safer_ffi::headers::order::{chars_less, reversed_indices, stable_indices};
use safer_ffi::headers::registry::order_of;
use safer_ffi::headers::{FfiExport, Primitive, TypeLayout};

fn key(name: &str) -> Vec<char> {
    name.chars().collect()
}

fn keys(names: &[&str]) -> Vec<Vec<char>> {
    names.iter().map(|name| key(name)).collect()
}

fn export(name: &str) -> FfiExport {
    FfiExport {
        name: name.to_string(),
        docs: Vec::new(),
        args: Vec::new(),
        ret_ty: TypeLayout::Primitive(Primitive {
            c_name: "void".to_string(),
            csharp_name: "void".to_string(),
            csharp_marshaler: None,
        }),
    }
}

#[test]
fn names_are_ordered_as_str_orders_them() {
    let names = ["", "a", "ab", "abc", "b", "B", "_a", "a_", "é", "z", "rust_free", "rust_concat"];
    for a in names {
        for b in names {
            assert_eq!(chars_less(&key(a), &key(b)), a < b, "{:?} < {:?}", a, b);
        }
    }
}

#[test]
fn stable_order_sorts_by_name() {
    assert_eq!(stable_indices(&keys(&["c", "a", "b"])), vec![1, 2, 0]);
    assert_eq!(stable_indices(&keys(&["a", "b", "c"])), vec![0, 1, 2]);
    assert_eq!(stable_indices(&keys(&["rust_free", "rust_concat"])), vec![1, 0]);
    assert_eq!(stable_indices(&keys(&[])), Vec::<usize>::new());
    assert_eq!(stable_indices(&keys(&["only"])), vec![0]);
}

#[test]
fn of_two_functions_with_one_name_the_last_stays() {
    assert_eq!(stable_indices(&keys(&["b", "a", "b"])), vec![1, 2]);
    assert_eq!(stable_indices(&keys(&["a", "a", "a"])), vec![2]);
    assert_eq!(stable_indices(&keys(&["b", "a", "c", "a", "b"])), vec![3, 4, 2]);
}

#[test]
fn reversed_order_counts_down() {
    assert_eq!(reversed_indices(0), Vec::<usize>::new());
    assert_eq!(reversed_indices(1), vec![0]);
    assert_eq!(reversed_indices(4), vec![3, 2, 1, 0]);
}

#[test]
fn order_of_picks_the_mode() {
    let exports = vec![export("c"), export("a"), export("b")];
    assert_eq!(order_of(&exports, true), vec![1, 2, 0]);
    assert_eq!(order_of(&exports, false), vec![2, 1, 0]);
}

#[test]
fn stable_order_is_the_same_for_every_registration_order() {
    let names = ["delta", "alpha", "charlie", "bravo"];
    let sorted = ["alpha", "bravo", "charlie", "delta"];
    let permutations: [[usize; 4]; 6] =
        [[0, 1, 2, 3], [3, 2, 1, 0], [1, 0, 3, 2], [2, 3, 0, 1], [1, 2, 3, 0], [3, 0, 1, 2]];
    for permutation in permutations {
        let exports: Vec<FfiExport> = permutation.iter().map(|&i| export(names[i])).collect();
        let order = order_of(&exports, true);
        let walked: Vec<&str> = order.iter().map(|&i| exports[i].name.as_str()).collect();
        assert_eq!(walked, sorted);
    }
}
