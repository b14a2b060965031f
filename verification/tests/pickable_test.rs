use arg_picker::arg::{PickerArgInfo, PickerArgResult, TagPhaseContext};
use arg_picker::derive::{
    derived_short, field_arg_info, match_variant, pick_variant, tag_fields, FieldArgOptions, FieldShape,
    LongArg, ShortArg,
};
use arg_picker::parselib::matcher::SingleMatcher;
use arg_picker::parselib::utils::seek_single_with;
use arg_picker::style::ParserStyle;

fn no_options() -> FieldArgOptions {
    FieldArgOptions { short: None, long: None, aliases: vec![] }
}

/// Tags each field in turn, as the derived tag phase does, and gives the words of each.
fn tag_each<'a>(args: &[&'a str], fields: &[PickerArgInfo]) -> Vec<Vec<&'a str>> {
    let style = ParserStyle::unix();
    let mut mask = vec![0u8; args.len()];
    let mut out = vec![];
    for info in fields {
        let tagged = {
            let ctx = TagPhaseContext { arg_info: info, args, mask: &mask, style: &style };
            SingleMatcher::tag(&ctx)
        };
        for &i in &tagged {
            mask[i] = 1;
        }
        out.push(tagged.iter().map(|&i| args[i]).collect());
    }
    let shapes: Vec<FieldShape> = fields.iter().map(|f| FieldShape::Single(f.clone())).collect();
    let all = tag_fields(args, &vec![0u8; args.len()], &shapes, &style);
    let flat: Vec<&str> = all.iter().map(|&i| args[i]).collect();
    assert_eq!(flat, out.concat());
    out
}

fn value<'a>(words: &'a [&'a str], info: &PickerArgInfo) -> Option<&'a str> {
    seek_single_with(words, info, &ParserStyle::unix())
}

struct MyType {
    number: i32,
    name: String,
    info: Option<String>,
}

/// Reads `MyType` from positional words, as the derived `pick` does.
fn pick_my_type(raw: &[&str]) -> PickerArgResult<MyType> {
    let fields: Vec<PickerArgInfo> =
        ["number", "name", "info"].iter().map(|f| field_arg_info(f, &no_options())).collect();
    let words = tag_each(raw, &fields);
    let number = value(&words[0], &fields[0]).and_then(|v| v.parse::<i32>().ok());
    let name = value(&words[1], &fields[1]).map(|v| v.to_string());
    let info = value(&words[2], &fields[2]).map(|v| v.to_string());
    match (number, name) {
        (Some(number), Some(name)) => PickerArgResult::Parsed(MyType { number, name, info }),
        _ => PickerArgResult::NotFound,
    }
}

#[test]
fn test_pickialize_parses_full_struct() {
    let parsed = pick_my_type(&["42", "hello", "extra"]).unwrap();
    assert_eq!(parsed.number, 42);
    assert_eq!(parsed.name, "hello");
    assert_eq!(parsed.info, Some("extra".to_string()));
}

#[test]
fn test_pickialize_missing_optional_field_ok() {
    let parsed = pick_my_type(&["7", "world"]).unwrap();
    assert_eq!(parsed.number, 7);
    assert_eq!(parsed.name, "world");
    assert_eq!(parsed.info, None);
}

#[test]
fn test_pickialize_missing_required_field_not_found() {
    let result = pick_my_type(&["1"]);
    assert!(result.is_err());
}

const COMMAND_VARIANTS: [&str; 2] = ["run_fast", "foo_bar"];

#[test]
fn test_pickialize_enum_parses_snake_case_input() {
    let parsed = pick_variant(Some("run_fast"), &COMMAND_VARIANTS).unwrap();
    assert_eq!(parsed, 0);
    let parsed = pick_variant(Some("foo-bar"), &COMMAND_VARIANTS).unwrap();
    assert_eq!(parsed, 1);
}

#[test]
fn test_pickialize_enum_parses_pascal_input() {
    let parsed = pick_variant(Some("RunFast"), &COMMAND_VARIANTS).unwrap();
    assert_eq!(parsed, 0);
}

#[test]
fn test_pickialize_enum_unknown_returns_not_found() {
    let result = pick_variant(Some("unknown"), &COMMAND_VARIANTS);
    assert!(result.is_err());
}

#[test]
fn test_pick_variant_of_nothing_is_not_found() {
    assert_eq!(pick_variant(None, &COMMAND_VARIANTS), PickerArgResult::NotFound);
}

#[test]
fn test_match_variant_takes_the_first_equal() {
    let names = vec!["A".to_string(), "B".to_string(), "B".to_string()];
    assert_eq!(match_variant("B", &names), Some(1));
    assert_eq!(match_variant("C", &names), None);
}

fn arg_styled() -> PickerArgInfo {
    let options = FieldArgOptions {
        short: Some(ShortArg::Explicit('s')),
        long: Some(LongArg::Explicit("server".to_string())),
        aliases: vec!["host".to_string()],
    };
    field_arg_info("name", &options)
}

fn pick_arg_styled(raw: &[&str]) -> PickerArgResult<String> {
    let fields = [arg_styled()];
    let words = tag_each(raw, &fields);
    match value(&words[0], &fields[0]) {
        Some(v) => PickerArgResult::Parsed(v.to_string()),
        None => PickerArgResult::NotFound,
    }
}

#[test]
fn test_pickialize_struct_arg_attr_short() {
    assert_eq!(pick_arg_styled(&["-s", "alpha"]).unwrap(), "alpha");
}

#[test]
fn test_pickialize_struct_arg_attr_long() {
    assert_eq!(pick_arg_styled(&["--server", "beta"]).unwrap(), "beta");
}

#[test]
fn test_pickialize_struct_arg_attr_alias() {
    assert_eq!(pick_arg_styled(&["--host", "gamma"]).unwrap(), "gamma");
}

#[test]
fn test_pickialize_struct_arg_attr_overrides_field_name() {
    let result = pick_arg_styled(&["--name", "delta"]);
    assert!(result.is_err());
}

struct ImplicitArgs {
    count: i32,
    user_name: String,
    server_name: String,
}

fn pick_implicit(raw: &[&str]) -> PickerArgResult<ImplicitArgs> {
    let fields = [
        field_arg_info("count", &FieldArgOptions { short: Some(ShortArg::Implicit), ..no_options() }),
        field_arg_info("user_name", &FieldArgOptions { long: Some(LongArg::Implicit), ..no_options() }),
        field_arg_info(
            "server_name",
            &FieldArgOptions {
                short: Some(ShortArg::Implicit),
                long: Some(LongArg::Implicit),
                ..no_options()
            },
        ),
    ];
    let words = tag_each(raw, &fields);
    let count = value(&words[0], &fields[0]).and_then(|v| v.parse::<i32>().ok());
    let user_name = value(&words[1], &fields[1]).map(|v| v.to_string());
    let server_name = value(&words[2], &fields[2]).map(|v| v.to_string());
    match (count, user_name, server_name) {
        (Some(count), Some(user_name), Some(server_name)) => {
            PickerArgResult::Parsed(ImplicitArgs { count, user_name, server_name })
        }
        _ => PickerArgResult::NotFound,
    }
}

#[test]
fn test_pickialize_implicit_short_long() {
    let parsed =
        pick_implicit(&["-c", "3", "--user-name", "alice", "--server-name", "db"]).unwrap();
    assert_eq!(parsed.count, 3);
    assert_eq!(parsed.user_name, "alice");
    assert_eq!(parsed.server_name, "db");
}

#[test]
fn test_pickialize_implicit_short_derived_from_field() {
    let parsed = pick_implicit(&["--count", "7", "--user-name", "bob", "-s", "web"]).unwrap();
    assert_eq!(parsed.count, 7);
    assert_eq!(parsed.user_name, "bob");
    assert_eq!(parsed.server_name, "web");
}

#[test]
fn test_field_without_options_is_positional() {
    let info = field_arg_info("number", &no_options());
    assert!(info.positional);
    assert_eq!(info.long, None);
    assert_eq!(info.short, None);
}

#[test]
fn test_derived_short_is_first_character() {
    assert_eq!(derived_short("count"), 'c');
    assert_eq!(derived_short(""), '_');
}

#[test]
fn test_fields_never_share_a_word() {
    let style = ParserStyle::unix();
    let a = PickerArgInfo::from_names(&["name"], None, false);
    let b = PickerArgInfo::from_names(&["name"], None, false);
    let p = PickerArgInfo::from_names(&[], None, true);
    let args = ["--name", "x", "y", "--name", "z"];
    let mask = [0u8, 0, 0, 0, 0];
    let all = tag_fields(
        &args,
        &mask,
        &[FieldShape::Single(a), FieldShape::Single(b), FieldShape::Single(p)],
        &style,
    );
    assert_eq!(all, vec![0, 1, 3, 4, 2]);
}

#[test]
fn test_composite_tag_does_not_claim_unrelated_flag() {
    let style = ParserStyle::unix();
    let args = ["--number", "1", "--name", "alice", "--verbose"];
    let number = field_arg_info(
        "number",
        &FieldArgOptions { short: None, long: Some(LongArg::Explicit("number".to_string())), aliases: vec![] },
    );
    let name = field_arg_info(
        "name",
        &FieldArgOptions { short: None, long: Some(LongArg::Explicit("name".to_string())), aliases: vec![] },
    );
    let inner = FieldShape::Struct(vec![FieldShape::Single(number.clone()), FieldShape::Single(name.clone())]);
    let claimed = tag_fields(&args, &[0u8; 5], &[inner], &style);
    assert_eq!(claimed, vec![0, 1, 2, 3]);
    assert_eq!(value(&args[0..2], &number), Some("1"));
    assert_eq!(value(&args[2..4], &name), Some("alice"));
    // `--verbose` is left for whatever names it.
    let verbose = PickerArgInfo::from_names(&["verbose"], None, false);
    let mut mask = [0u8; 5];
    for &i in &claimed {
        mask[i] = 1;
    }
    let ctx = TagPhaseContext { arg_info: &verbose, args: &args, mask: &mask, style: &style };
    assert_eq!(SingleMatcher::tag(&ctx), vec![4]);
}

#[test]
fn test_nested_struct_field_claims_before_the_next_field() {
    let style = ParserStyle::unix();
    let a = PickerArgInfo::from_names(&["a"], None, false);
    let p = PickerArgInfo::from_names(&[], None, true);
    let args = ["x", "--a", "1", "y"];
    let inner = FieldShape::Struct(vec![FieldShape::Single(a), FieldShape::Single(p.clone())]);
    let claimed = tag_fields(&args, &[0u8; 4], &[inner, FieldShape::Single(p)], &style);
    assert_eq!(claimed, vec![1, 2, 0, 3]);
}
