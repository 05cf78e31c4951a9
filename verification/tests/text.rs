use safer_ffi::headers::text::{
    chars_of, decimal_string, is_ascii_alphanumeric, replace_char, str_ends_with_char,
    to_ascii_upper, trim,
};

#[test]
fn chars_of_keeps_every_character_in_order() {
    assert_eq!(chars_of("a_b"), vec!['a', '_', 'b']);
    assert_eq!(chars_of(""), Vec::<char>::new());
    assert_eq!(chars_of("é1"), vec!['é', '1']);
}

#[test]
fn trim_removes_white_space_at_both_ends_only() {
    assert_eq!(trim("  rust_concat \n"), "rust_concat");
    assert_eq!(trim("a b"), "a b");
    assert_eq!(trim("\t a b \r\n"), "a b");
    assert_eq!(trim(""), "");
    assert_eq!(trim(" \n\t"), "");
    assert_eq!(trim("f"), "f");
}

#[test]
fn trim_agrees_with_std_on_unicode_white_space() {
    let name = "\u{2003}f\u{a0}";
    assert_eq!(trim(name), name.trim());
    assert_eq!(trim(name), "f");
}

#[test]
fn ends_with_char_looks_at_the_last_character() {
    assert!(str_ends_with_char("f (", '('));
    assert!(!str_ends_with_char("f (a", '('));
    assert!(!str_ends_with_char("", '('));
    assert!(!str_ends_with_char("(a", '('));
}

#[test]
fn ascii_upper_changes_lower_case_letters_only() {
    assert_eq!(to_ascii_upper('a'), 'A');
    assert_eq!(to_ascii_upper('z'), 'Z');
    assert_eq!(to_ascii_upper('m'), 'M');
    assert_eq!(to_ascii_upper('A'), 'A');
    assert_eq!(to_ascii_upper('0'), '0');
    assert_eq!(to_ascii_upper('_'), '_');
    assert_eq!(to_ascii_upper('é'), 'é');
    assert_eq!(to_ascii_upper('`'), '`');
    assert_eq!(to_ascii_upper('{'), '{');
}

#[test]
fn ascii_alphanumeric_is_letters_and_digits() {
    for c in ['a', 'z', 'A', 'Z', '0', '9', 'k'] {
        assert!(is_ascii_alphanumeric(c));
    }
    for c in ['_', '-', ' ', 'é', '/', ':', '@', '[', '`', '{'] {
        assert!(!is_ascii_alphanumeric(c));
    }
}

#[test]
fn decimal_string_writes_numbers_without_leading_zeros() {
    assert_eq!(decimal_string(0), "0");
    assert_eq!(decimal_string(7), "7");
    assert_eq!(decimal_string(10), "10");
    assert_eq!(decimal_string(42), "42");
    assert_eq!(decimal_string(1234567890), "1234567890");
    assert_eq!(decimal_string(usize::MAX), usize::MAX.to_string());
}

#[test]
fn replace_char_replaces_every_occurrence() {
    assert_eq!(replace_char("my-ffi-lib", '-', '_'), "my_ffi_lib");
    assert_eq!(replace_char("plain", '-', '_'), "plain");
    assert_eq!(replace_char("--", '-', '_'), "__");
    assert_eq!(replace_char("", '-', '_'), "");
}
