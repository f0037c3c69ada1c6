use rust_os::split::split_at_mut;
use rust_os::wc::{
    apply_default_modifiers, count_bytes, count_chars, count_lines, count_words, has_substring, modifier_kind_of,
    parse_args, str_eq, wc_action, wc_output, CountKind, WcAction,
};

fn args(v: &[&str]) -> Vec<String> {
    v.iter().map(|s| s.to_string()).collect()
}

#[test]
fn parse_sorts_arguments() {
    let a = parse_args(args(&["wc", "-lw", "--bytes", "notes.txt"]));
    assert_eq!(a.modifiers, vec!["bytes".to_string()]);
    assert_eq!(a.char_modifiers, vec!['l', 'w']);
    assert_eq!(a.file, Some("notes.txt".to_string()));
}

#[test]
fn parse_takes_program_name_as_file_when_none_given() {
    let a = parse_args(args(&["wc", "--help"]));
    assert_eq!(a.file, Some("wc".to_string()));
    assert_eq!(a.modifiers, vec!["help".to_string()]);
}

#[test]
fn defaults_when_no_option() {
    let mut a = parse_args(args(&["wc", "f.txt"]));
    apply_default_modifiers(&mut a);
    assert_eq!(a.char_modifiers, vec!['w', 'c', 'm', 'l']);
    let mut b = parse_args(args(&["wc", "-l", "f.txt"]));
    apply_default_modifiers(&mut b);
    assert_eq!(b.char_modifiers, vec!['l']);
}

#[test]
fn version_before_help() {
    assert_eq!(wc_action(&parse_args(args(&["wc", "--help", "--version"]))), WcAction::Version);
    assert_eq!(wc_action(&parse_args(args(&["wc", "--help"]))), WcAction::Help);
    assert_eq!(wc_action(&parse_args(args(&["wc", "-c", "x"]))), WcAction::Count);
}

#[test]
fn counts() {
    let text = "hello world\n  héllo\tthere\n\nend";
    assert_eq!(count_bytes(text), text.len());
    assert_eq!(count_chars(text), text.chars().count());
    assert_eq!(count_lines(text), 4);
    assert_eq!(count_words(text), 5);
    assert_eq!(count_lines(""), 0);
    assert_eq!(count_lines("a\n"), 1);
    assert_eq!(count_lines("\n\n"), 2);
    assert_eq!(count_words("   "), 0);
    assert_eq!(count_words("a\u{3000}b"), 2);
}

#[test]
fn string_helpers() {
    assert!(str_eq("abc", "abc"));
    assert!(!str_eq("abc", "abd"));
    assert!(!str_eq("ab", "abc"));
    assert!(has_substring("show-bytes", "bytes"));
    assert!(!has_substring("byte", "bytes"));
    assert!(has_substring("x", ""));
}

#[test]
fn option_kinds() {
    assert_eq!(modifier_kind_of("c"), Some(CountKind::Bytes));
    assert_eq!(modifier_kind_of("bytes"), Some(CountKind::Bytes));
    assert_eq!(modifier_kind_of("chars"), Some(CountKind::Chars));
    assert_eq!(modifier_kind_of("m"), Some(CountKind::Chars));
    assert_eq!(modifier_kind_of("lines"), Some(CountKind::Lines));
    assert_eq!(modifier_kind_of("words"), Some(CountKind::Words));
    assert_eq!(modifier_kind_of("version"), None);
    assert_eq!(modifier_kind_of("charsbytes"), Some(CountKind::Bytes));
}

#[test]
fn output_line() {
    let mut a = parse_args(args(&["wc", "f.txt"]));
    apply_default_modifiers(&mut a);
    let out = wc_output("one two\nthree\n", &a, "f.txt");
    assert_eq!(out, "3   14   14   2   f.txt");
    let b = parse_args(args(&["wc", "--lines", "-x", "g"]));
    assert_eq!(wc_output("a\nb", &b, "g"), "2   g");
}

#[test]
fn split_at_mut_clamps_and_writes_through() {
    let mut array = [1, 2, 3, 4, 5, 6, 7, 8, 9, 10, 11, 12, 13, 14, 15];
    {
        let (left, right) = split_at_mut(array.as_mut(), 5);
        assert_eq!(left, &[1, 2, 3, 4, 5]);
        assert_eq!(right, &[6, 7, 8, 9, 10, 11, 12, 13, 14, 15]);
        left[0] = 100;
        right[0] = 600;
    }
    assert_eq!(array[0], 100);
    assert_eq!(array[5], 600);
    let (l2, r2) = split_at_mut(array.as_mut(), 99);
    assert_eq!(l2.len(), 15);
    assert_eq!(r2.len(), 0);
}
