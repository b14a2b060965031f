use arg_picker::arg::{PickerArgInfo, PickerArgResult, TagPhaseContext};
use arg_picker::parselib::matcher::SingleMatcher;
use arg_picker::pickable::{pick_with, SinglePickable};
use arg_picker::style::ParserStyle;

/// The argument named `long`, with an optional short name and aliases.
fn named(long: &str, short: Option<char>, aliases: &[&str]) -> PickerArgInfo {
    let mut full = vec![long];
    full.extend_from_slice(aliases);
    PickerArgInfo::from_names(&full, short, false)
}

/// Tags the words of `info` with the given claimed words, then reads a `bool` from them.
fn read_bool(args: &[&str], mask: &mut Vec<u8>, info: &PickerArgInfo) -> PickerArgResult<bool> {
    let style = ParserStyle::unix();
    let tagged = {
        let ctx = TagPhaseContext { arg_info: info, args, mask: mask.as_slice(), style: &style };
        SingleMatcher::tag(&ctx)
    };
    for &i in &tagged {
        mask[i] = 1;
    }
    let words: Vec<&str> = tagged.iter().map(|&i| args[i]).collect();
    pick_with::<bool>(&words, info, &style)
}

fn or_else(r: PickerArgResult<bool>, default: bool) -> bool {
    match r {
        PickerArgResult::Parsed(v) => v,
        _ => default,
    }
}

fn pick_bool(args: &[&str], info: &PickerArgInfo) -> PickerArgResult<bool> {
    let mut mask = vec![0u8; args.len()];
    read_bool(args, &mut mask, info)
}

#[test]
fn test_bool_value_present_true() {
    let parsed = or_else(pick_bool(&["--verbose", "true"], &named("verbose", None, &[])), false);
    assert!(parsed);
}

#[test]
fn test_bool_value_present_false() {
    let parsed = or_else(pick_bool(&["--verbose", "false"], &named("verbose", None, &[])), false);
    assert!(!parsed);
}

#[test]
fn test_bool_value_absent_uses_default() {
    let parsed = or_else(pick_bool(&[], &named("verbose", None, &[])), false);
    assert!(!parsed);
}

#[test]
fn test_bool_value_case_insensitive_upper() {
    let parsed = or_else(pick_bool(&["--verbose", "TRUE"], &named("verbose", None, &[])), false);
    assert!(parsed);
}

#[test]
fn test_bool_value_case_insensitive_mixed() {
    let parsed = or_else(pick_bool(&["--verbose", "FaLsE"], &named("verbose", None, &[])), false);
    assert!(!parsed);
}

#[test]
fn test_bool_short_value_present() {
    let parsed = or_else(pick_bool(&["-v", "true"], &named("verbose", Some('v'), &[])), false);
    assert!(parsed);
}

#[test]
fn test_two_bool_values_both_present() {
    let args = ["--flag-a", "true", "--flag-b", "false"];
    let mut mask = vec![0u8; args.len()];
    let a = or_else(read_bool(&args, &mut mask, &named("flag_a", None, &[])), false);
    let b = or_else(read_bool(&args, &mut mask, &named("flag_b", None, &[])), false);
    assert!(a);
    assert!(!b);
}

#[test]
fn test_bool_value_with_alias() {
    let parsed = or_else(pick_bool(&["--cfg", "true"], &named("config", None, &["cfg"])), false);
    assert!(parsed);
}

#[test]
fn test_bool_value_primary_name() {
    let parsed = or_else(pick_bool(&["--config", "false"], &named("config", None, &["cfg"])), false);
    assert!(!parsed);
}

#[test]
fn test_bool_value_after_end_of_options() {
    let parsed = or_else(pick_bool(&["--", "--verbose", "true"], &named("verbose", None, &[])), false);
    assert!(!parsed);
}

#[test]
fn test_or_default_without_args() {
    let parsed = or_else(pick_bool(&[], &named("verbose", None, &[])), bool::default());
    assert!(!parsed);
}

#[test]
fn test_or_custom_default() {
    let parsed = or_else(pick_bool(&[], &named("verbose", None, &[])), true);
    assert!(parsed);
}

#[test]
fn test_bool_invalid_value_uses_custom_default() {
    let parsed = or_else(pick_bool(&["--verbose", "yes"], &named("verbose", None, &[])), true);
    assert!(parsed);
}

#[test]
fn test_to_result_ok() {
    let result: Result<bool, ()> =
        Ok(or_else(pick_bool(&["--verbose", "true"], &named("verbose", None, &[])), false));
    assert_eq!(result, Ok(true));
}

#[test]
fn test_to_option_some() {
    let opt: Option<bool> =
        Some(or_else(pick_bool(&["--verbose", "false"], &named("verbose", None, &[])), false));
    assert_eq!(opt, Some(false));
}

#[test]
fn test_with_route_chain() {
    let parsed = or_else(pick_bool(&["--flag", "true"], &named("flag", None, &[])), false);
    assert!(parsed);
}

#[test]
fn test_unrelated_flag_does_not_match() {
    let parsed = or_else(pick_bool(&["--other", "true"], &named("verbose", None, &[])), false);
    assert!(!parsed);
}

#[test]
fn test_bool_reading_directly() {
    assert_eq!(bool::pick_single(Some("  True ")), PickerArgResult::Parsed(true));
    assert_eq!(bool::pick_single(Some("no")), PickerArgResult::NotFound);
    assert_eq!(bool::pick_single(None), PickerArgResult::NotFound);
}

#[test]
fn test_bool_in_powershell_style() {
    let style = ParserStyle::powershell();
    let info = named("verbose", None, &[]);
    let args = ["-VERBOSE", "true"];
    let mask = [0u8; 2];
    let ctx = TagPhaseContext { arg_info: &info, args: &args, mask: &mask, style: &style };
    let tagged = SingleMatcher::tag(&ctx);
    assert_eq!(tagged, vec![0, 1]);
    let words: Vec<&str> = tagged.iter().map(|&i| args[i]).collect();
    assert_eq!(pick_with::<bool>(&words, &info, &style), PickerArgResult::Parsed(true));
}
