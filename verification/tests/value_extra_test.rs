use arg_picker::arg::{PickerArgInfo, PickerArgResult, TagPhaseContext};
use arg_picker::duration::{split_unit, DurationUnit};
use arg_picker::parselib::matcher::SingleMatcher;
use arg_picker::pickable::{pick_with, SinglePickable};
use arg_picker::style::ParserStyle;

fn pick_char(args: &[&str], long: &str) -> PickerArgResult<char> {
    let style = ParserStyle::unix();
    let info = PickerArgInfo::from_names(&[long], None, false);
    let mask = vec![0u8; args.len()];
    let ctx = TagPhaseContext { arg_info: &info, args, mask: &mask, style: &style };
    let words: Vec<&str> = SingleMatcher::tag(&ctx).iter().map(|&i| args[i]).collect();
    pick_with::<char>(&words, &info, &style)
}

fn or(r: PickerArgResult<char>, default: char) -> char {
    match r {
        PickerArgResult::Parsed(c) => c,
        _ => default,
    }
}

#[test]
fn test_char_named_present() {
    let val = or(pick_char(&["--separator", ","], "separator"), '?');
    assert_eq!(val, ',');
}

#[test]
fn test_char_named_invalid_uses_fallback() {
    let val = or(pick_char(&["--separator", "ab"], "separator"), '?');
    assert_eq!(val, '?');
}

#[test]
fn test_char_reads_one_character_only() {
    assert_eq!(char::pick_single(Some("é")), PickerArgResult::Parsed('é'));
    assert_eq!(char::pick_single(Some("")), PickerArgResult::NotFound);
    assert_eq!(char::pick_single(None), PickerArgResult::NotFound);
}

#[test]
fn test_split_unit_suffixes() {
    assert_eq!(split_unit("5"), ("5", DurationUnit::Seconds));
    assert_eq!(split_unit("1.5"), ("1.5", DurationUnit::Seconds));
    assert_eq!(split_unit("500ms"), ("500", DurationUnit::Milliseconds));
    assert_eq!(split_unit("2m"), ("2", DurationUnit::Minutes));
    assert_eq!(split_unit("3h"), ("3", DurationUnit::Hours));
    assert_eq!(split_unit("7ns"), ("7", DurationUnit::Nanoseconds));
    assert_eq!(split_unit("9us"), ("9", DurationUnit::Microseconds));
    assert_eq!(split_unit("4s"), ("4", DurationUnit::Seconds));
    assert_eq!(split_unit("-1"), ("-1", DurationUnit::Seconds));
}
