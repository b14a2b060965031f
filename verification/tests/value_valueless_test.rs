use arg_picker::arg::{PickerArgInfo, PickerArgResult, TagPhaseContext};
use arg_picker::parselib::matcher::{ArgMatcher, SingleMatcher};
use arg_picker::parselib::utils::seek_single_with;
use arg_picker::pickable::pick_option_with;
use arg_picker::style::ParserStyle;

fn named(long: &str) -> PickerArgInfo {
    PickerArgInfo::from_names(&[long], None, false)
}

fn positional() -> PickerArgInfo {
    PickerArgInfo::from_names(&[], None, true)
}

/// The words `info` tags, marking them as claimed.
fn tag<'a>(args: &[&'a str], mask: &mut Vec<u8>, info: &PickerArgInfo) -> Vec<&'a str> {
    let style = ParserStyle::unix();
    let tagged = {
        let ctx = TagPhaseContext { arg_info: info, args, mask: mask.as_slice(), style: &style };
        SingleMatcher::tag(&ctx)
    };
    for &i in &tagged {
        mask[i] = 1;
    }
    tagged.iter().map(|&i| args[i]).collect()
}

/// Reads a text value: nothing where a value would be is not found.
fn read_string(words: &[&str], info: &PickerArgInfo) -> PickerArgResult<String> {
    match seek_single_with(words, info, &ParserStyle::unix()) {
        Some(v) => PickerArgResult::Parsed(v.to_string()),
        None => PickerArgResult::NotFound,
    }
}

/// Reads an optional text value: nothing where a value would be is `None`.
fn read_option_string(words: &[&str], info: &PickerArgInfo) -> PickerArgResult<Option<String>> {
    if seek_single_with(words, info, &ParserStyle::unix()).is_none() {
        return PickerArgResult::Parsed(None);
    }
    match read_string(words, info) {
        PickerArgResult::Parsed(v) => PickerArgResult::Parsed(Some(v)),
        PickerArgResult::Unparsed => PickerArgResult::Unparsed,
        PickerArgResult::NotFound => PickerArgResult::NotFound,
    }
}

fn read_i32(words: &[&str], info: &PickerArgInfo) -> PickerArgResult<i32> {
    match seek_single_with(words, info, &ParserStyle::unix()) {
        Some(v) => v.parse::<i32>().map_or(PickerArgResult::NotFound, PickerArgResult::Parsed),
        None => PickerArgResult::NotFound,
    }
}

fn to_result<T>(r: PickerArgResult<T>, route: &'static str) -> Result<T, &'static str> {
    match r {
        PickerArgResult::Parsed(v) => Ok(v),
        _ => Err(route),
    }
}

fn option_string(args: &[&str], info: &PickerArgInfo) -> Result<Option<String>, &'static str> {
    let mut mask = vec![0u8; args.len()];
    let words = tag(args, &mut mask, info);
    to_result(read_option_string(&words, info), "no_value")
}

/// Whether a flag is given: a flag is active when a word names it.
fn flag_active(args: &[&str], mask: &[u8], long: &str) -> bool {
    let style = ParserStyle::unix();
    let info = named(long);
    let ctx = TagPhaseContext { arg_info: &info, args, mask, style: &style };
    !ArgMatcher::match_all(&ctx).is_empty()
}

#[test]
fn test_option_named_absent_is_none() {
    assert_eq!(option_string(&[], &named("name")), Ok(None));
}

#[test]
fn test_option_named_present_with_value_is_some() {
    assert_eq!(option_string(&["--name", "Alice"], &named("name")), Ok(Some("Alice".to_string())));
}

#[test]
fn test_option_named_without_value_is_none() {
    assert_eq!(option_string(&["--name"], &named("name")), Ok(None));
}

#[test]
fn test_required_named_without_value_is_still_a_failure() {
    let args = ["--name"];
    let info = named("name");
    let mut mask = vec![0u8; args.len()];
    let words = tag(&args, &mut mask, &info);
    let result: Result<String, &'static str> = to_result(read_string(&words, &info), "no_value");
    assert_eq!(result, Err("no_value"));
}

#[test]
fn test_empty_inline_value_is_a_value() {
    assert_eq!(option_string(&["--name="], &named("name")), Ok(Some(String::new())));
}

#[test]
fn test_flag_after_valueless_argument_is_not_taken_as_its_value() {
    let args = ["--name", "--install"];
    let info = named("name");
    let mut mask = vec![0u8; args.len()];
    let words = tag(&args, &mut mask, &info);
    let name = match read_option_string(&words, &info) {
        PickerArgResult::Parsed(v) => Some(v),
        _ => None,
    };
    let install = flag_active(&args, &mask, "install");
    assert_eq!(name, Some(None));
    assert!(install);
}

#[test]
fn test_end_of_options_after_a_flag_is_not_taken_as_its_value() {
    assert_eq!(option_string(&["--name", "--"], &named("name")), Ok(None));
}

#[test]
fn test_value_that_looks_like_a_flag_is_refused() {
    let info = named("count");
    let args = ["--count", "-5"];
    let mut mask = vec![0u8; args.len()];
    let words = tag(&args, &mut mask, &info);
    let refused: Result<i32, &'static str> = to_result(read_i32(&words, &info), "no_value");
    assert_eq!(refused, Err("no_value"));

    let args = ["--count=-5"];
    let mut mask = vec![0u8; args.len()];
    let words = tag(&args, &mut mask, &info);
    let given = match read_i32(&words, &info) {
        PickerArgResult::Parsed(v) => v,
        _ => 0,
    };
    assert_eq!(given, -5);
}

#[test]
fn test_option_positional_absent_is_none_and_present_is_some() {
    let absent = option_string(&[], &positional()).unwrap_or_default();
    assert_eq!(absent, None);
    let present = option_string(&["Alice"], &positional()).unwrap_or_default();
    assert_eq!(present, Some("Alice".to_string()));
}

#[test]
fn test_flag_like_positional_after_end_of_options_is_a_value() {
    let args = ["--", "--weird"];
    let info = positional();
    let mut mask = vec![0u8; args.len()];
    let words = tag(&args, &mut mask, &info);
    let value = match read_string(&words, &info) {
        PickerArgResult::Parsed(v) => v,
        _ => String::new(),
    };
    assert_eq!(value, "--weird");
}

#[test]
fn test_option_of_bool_given_no_value_is_none() {
    let args = ["--quiet", "--verbose"];
    let info = named("quiet");
    let mut mask = vec![0u8; args.len()];
    let words = tag(&args, &mut mask, &info);
    assert_eq!(words, vec!["--quiet"]);
    let style = ParserStyle::unix();
    assert_eq!(pick_option_with::<bool>(&words, &info, &style), PickerArgResult::Parsed(None));
    assert_eq!(pick_option_with::<bool>(&[], &info, &style), PickerArgResult::Parsed(None));
    assert_eq!(
        pick_option_with::<bool>(&["--quiet", "maybe"], &info, &style),
        PickerArgResult::NotFound
    );
}

#[test]
fn test_repeated_flag_with_values_tags_each_pair() {
    let args = ["--name", "a", "--other", "--name", "b"];
    let info = named("name");
    let mut mask = vec![0u8; args.len()];
    let words = tag(&args, &mut mask, &info);
    assert_eq!(words, vec!["--name", "a", "--name", "b"]);
    assert_eq!(mask, vec![1, 1, 0, 1, 1]);
}

#[test]
fn test_second_valueless_flag_is_left_untagged() {
    let args = ["--name", "a", "--name", "--x"];
    let info = named("name");
    let mut mask = vec![0u8; args.len()];
    let words = tag(&args, &mut mask, &info);
    assert_eq!(words, vec!["--name", "a"]);
}
