use arg_picker::arg::{MaskedArg, PickerArgInfo};
use arg_picker::parselib::utils::{
    assemble_flags, build_possible_flags, get_seeked_first, is_flag_like, multi_seek_contains,
    multi_seek_end_with, multi_seek_eq, multi_seek_start_with, seek_contains, seek_end_of_options,
    seek_end_with, seek_eq, seek_single, seek_single_with, seek_start_with, vec_string_to_vec_str,
};
use arg_picker::style::{ParserStyle, ParserStyleNamingCase};
use arg_picker::text::{eq_ignore_ascii_case, trim};

fn masked(words: &[&str]) -> Vec<MaskedArg> {
    words
        .iter()
        .enumerate()
        .map(|(i, w)| MaskedArg { raw: w.to_string(), raw_idx: i * 10 })
        .collect()
}

#[test]
fn test_build_possible_flags_unix() {
    let info = PickerArgInfo::from_names(&["flag_a", "other_name"], Some('f'), false);
    let flags = build_possible_flags(&ParserStyle::unix(), &info);
    assert_eq!(flags, vec!["-f", "--flag-a", "--other-name"]);
    for f in &flags {
        assert!(is_flag_like(f, &ParserStyle::unix()));
    }
}

#[test]
fn test_build_possible_flags_powershell_and_windows() {
    let info = PickerArgInfo::from_names(&["user_name"], Some('u'), false);
    assert_eq!(build_possible_flags(&ParserStyle::powershell(), &info), vec!["-u", "-UserName"]);
    assert_eq!(build_possible_flags(&ParserStyle::windows(), &info), vec!["/u", "/UserName"]);
}

#[test]
fn test_build_possible_flags_nothing() {
    let info = PickerArgInfo::from_names(&[], None, true);
    assert!(build_possible_flags(&ParserStyle::unix(), &info).is_empty());
}

#[test]
fn test_naming_cases() {
    assert_eq!(ParserStyleNamingCase::CamelCase.convert("brew_coffee"), "brewCoffee");
    assert_eq!(ParserStyleNamingCase::PascalCase.convert("brew_coffee"), "BrewCoffee");
    assert_eq!(ParserStyleNamingCase::SnakeCase.convert("brewCoffee"), "brew_coffee");
    assert_eq!(ParserStyleNamingCase::KebabCase.convert("brew_coffee"), "brew-coffee");
    assert_eq!(ParserStyleNamingCase::DotCase.convert("brew_coffee"), "brew.coffee");
}

#[test]
fn test_assemble_flags_keeps_names_as_given() {
    let names = vec!["A_b".to_string()];
    assert_eq!(assemble_flags(&ParserStyle::unix(), None, &names), vec!["--A_b"]);
    assert_eq!(assemble_flags(&ParserStyle::windows(), Some('x'), &[]), vec!["/x"]);
}

#[test]
fn test_is_flag_like_unix() {
    let style = ParserStyle::unix();
    assert!(is_flag_like("--name", &style));
    assert!(is_flag_like("-n", &style));
    assert!(is_flag_like("-5", &style));
    assert!(is_flag_like("--", &style));
    assert!(!is_flag_like("-", &style));
    assert!(!is_flag_like("value", &style));
    assert!(!is_flag_like("", &style));
}

#[test]
fn test_is_flag_like_windows() {
    let style = ParserStyle::windows();
    assert!(is_flag_like("/Name", &style));
    assert!(is_flag_like("/Users/me", &style));
    assert!(!is_flag_like("/", &style));
    assert!(is_flag_like("--", &style));
    assert!(!is_flag_like("-x", &style));
}

#[test]
fn test_seek_single_forms() {
    let style = ParserStyle::unix();
    assert_eq!(seek_single(&[], &style), None);
    assert_eq!(seek_single(&["--name=Bob"], &style), Some("Bob"));
    assert_eq!(seek_single(&["--name=a=b"], &style), Some("a=b"));
    assert_eq!(seek_single(&["--define=key=value"], &style), Some("key=value"));
    assert_eq!(seek_single(&["key=value"], &style), Some("key=value"));
    assert_eq!(seek_single(&["Bob"], &style), Some("Bob"));
    assert_eq!(seek_single(&["--name", "Bob"], &style), Some("Bob"));
    assert_eq!(seek_single(&["--name", "Bob", "--name", "Al"], &style), Some("Bob"));
    assert_eq!(seek_single(&["-Name:Bob"], &ParserStyle::powershell()), Some("Bob"));
}

#[test]
fn test_seek_single_with_flag_alone() {
    let style = ParserStyle::unix();
    let named = PickerArgInfo::from_names(&["name"], None, false);
    let positional = PickerArgInfo::from_names(&[], None, true);
    assert_eq!(seek_single_with(&["--name"], &named, &style), None);
    assert_eq!(seek_single_with(&[], &named, &style), None);
    assert_eq!(seek_single_with(&["--name="], &named, &style), Some(""));
    assert_eq!(seek_single_with(&["-"], &named, &style), Some("-"));
    assert_eq!(seek_single_with(&["--weird"], &positional, &style), Some("--weird"));
}

#[test]
fn test_seek_single_with_value_holding_the_separator() {
    let style = ParserStyle::unix();
    let named = PickerArgInfo::from_names(&["define"], None, false);
    let positional = PickerArgInfo::from_names(&[], None, true);
    assert_eq!(seek_single_with(&["--define=key=value"], &named, &style), Some("key=value"));
    assert_eq!(seek_single_with(&["key=value"], &positional, &style), Some("key=value"));
    assert_eq!(seek_single_with(&["--a=b"], &positional, &style), Some("--a=b"));
    assert_eq!(seek_single_with(&["--define", "k=v"], &named, &style), Some("k=v"));
    assert_eq!(
        seek_single_with(&["-Path:C:\\dir"], &named, &ParserStyle::powershell()),
        Some("C:\\dir")
    );
}

#[test]
fn test_seek_single_with_a_separator_of_more_bytes() {
    let mut style = ParserStyle::unix();
    style.value_separator = '\u{2192}';
    let named = PickerArgInfo::from_names(&["to"], None, false);
    assert_eq!(seek_single_with(&["--to\u{2192}x\u{2192}y"], &named, &style), Some("x\u{2192}y"));
    assert_eq!(seek_single(&["--to\u{2192}"], &style), Some(""));
}

#[test]
fn test_seek_end_of_options() {
    let style = ParserStyle::unix();
    assert_eq!(seek_end_of_options(&masked(&["a", "--", "b", "--"]), &style), Some(10));
    assert_eq!(seek_end_of_options(&masked(&["a", "b"]), &style), None);
}

#[test]
fn test_seek_eq_case_rules() {
    let args = masked(&["Name", "name", "NAME", "names"]);
    assert_eq!(seek_eq(&args, "name", true), vec![10]);
    assert_eq!(seek_eq(&args, "name", false), vec![0, 10, 20]);
}

#[test]
fn test_seek_eq_empty_text_ignoring_case() {
    let args = masked(&["", "a", ""]);
    assert_eq!(seek_eq(&args, "", false), vec![0, 20]);
    assert_eq!(seek_eq(&args, "", true), vec![0, 20]);
}

#[test]
fn test_seek_rules_nest() {
    let args = masked(&["abc", "abcd", "xabc", "ab"]);
    let eq = seek_eq(&args, "abc", true);
    let start = seek_start_with(&args, "abc", true);
    let contains = seek_contains(&args, "abc", true);
    assert_eq!(eq, vec![0]);
    assert_eq!(start, vec![0, 10]);
    assert_eq!(contains, vec![0, 10, 20]);
    assert_eq!(seek_end_with(&args, "bc", true), vec![0, 20]);
}

#[test]
fn test_seek_ignoring_case_uses_lowercase() {
    let args = masked(&["HELLO", "Straße", "élan"]);
    assert_eq!(seek_contains(&args, "ell", false), vec![0]);
    assert_eq!(seek_contains(&args, "ell", true), Vec::<usize>::new());
    assert_eq!(seek_start_with(&args, "ÉL", false), vec![20]);
    assert_eq!(seek_end_with(&args, "SSE", false), Vec::<usize>::new());
    assert_eq!(seek_end_with(&args, "SSE", true), Vec::<usize>::new());
    assert_eq!(seek_end_with(&args, "ASSE", false), Vec::<usize>::new());
    assert_eq!(seek_end_with(&args, "ẞE", false), vec![10]);
}

#[test]
fn test_multi_seeks() {
    let args = masked(&["--in", "--out", "-v", "file"]);
    assert_eq!(multi_seek_eq(&args, &["--out", "-v"], true), vec![10, 20]);
    assert_eq!(multi_seek_eq(&args, &["--OUT"], false), vec![10]);
    assert_eq!(multi_seek_eq(&args, &["--out"], true), seek_eq(&args, "--out", true));
    assert_eq!(multi_seek_contains(&args, &["ou", "il"], true), vec![10, 30]);
    assert_eq!(multi_seek_start_with(&args, &["--"], true), vec![0, 10]);
    assert_eq!(multi_seek_end_with(&args, &["V", "LE"], false), vec![20, 30]);
    assert_eq!(multi_seek_eq(&args, &[], true), Vec::<usize>::new());
}

#[test]
fn test_get_seeked_first_and_strings() {
    assert_eq!(get_seeked_first(vec![3, 1]), Some(3));
    assert_eq!(get_seeked_first(vec![]), None);
    let owned = vec!["a".to_string(), "bc".to_string()];
    assert_eq!(vec_string_to_vec_str(&owned), vec!["a", "bc"]);
}

#[test]
fn test_text_helpers() {
    assert_eq!(trim("  x y \t"), "x y");
    assert_eq!(trim("\u{3000}z\u{a0}"), "z");
    assert!(eq_ignore_ascii_case("TrUe", "true"));
    assert!(!eq_ignore_ascii_case("É", "é"));
}
