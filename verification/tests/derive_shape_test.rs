use arg_picker::arg::{PickerArgInfo, TagPhaseContext};
use arg_picker::attr::ArgToken::{CharLit, Comma, LBracket, Other, RBracket};
use arg_picker::attr::{parse_arg_attr, parse_arg_items, ArgAttrError, ArgToken};
use arg_picker::derive::{
    check_enum_shape, check_struct_shape, merge_arg_items, tag_fields, DeriveError, FieldShape,
    FieldArgItem, LongArg, ShortArg, MAX_FIELDS,
};
use arg_picker::parselib::matcher::SingleMatcher;
use arg_picker::style::ParserStyle;
use arg_picker::text::is_whitespace;

#[test]
fn test_struct_shape_is_checked_in_order() {
    assert_eq!(check_struct_shape(true, 3), Ok(()));
    assert_eq!(check_struct_shape(true, MAX_FIELDS), Ok(()));
    assert_eq!(check_struct_shape(true, MAX_FIELDS + 1), Err(DeriveError::TooManyFields));
    assert_eq!(check_struct_shape(true, 0), Err(DeriveError::NoFields));
    assert_eq!(check_struct_shape(false, 0), Err(DeriveError::UnnamedFields));
    assert_eq!(check_struct_shape(false, 40), Err(DeriveError::UnnamedFields));
}

#[test]
fn test_enum_shape_names_the_first_variant_with_data() {
    assert_eq!(check_enum_shape(&[]), Err(DeriveError::NoVariants));
    assert_eq!(check_enum_shape(&[true, true]), Ok(()));
    assert_eq!(check_enum_shape(&[true, false, false]), Err(DeriveError::VariantCarriesData(1)));
    assert_eq!(check_enum_shape(&[false]), Err(DeriveError::VariantCarriesData(0)));
}

#[test]
fn test_arg_attribute_last_option_wins() {
    let items = vec![
        FieldArgItem::Short(ShortArg::Explicit('a')),
        FieldArgItem::Aliases(vec!["x".to_string()]),
        FieldArgItem::Long(LongArg::Implicit),
        FieldArgItem::Short(ShortArg::Implicit),
        FieldArgItem::Aliases(vec!["y".to_string(), "z".to_string()]),
    ];
    let options = merge_arg_items(items);
    assert!(matches!(options.short, Some(ShortArg::Implicit)));
    assert!(matches!(options.long, Some(LongArg::Implicit)));
    assert_eq!(options.aliases, vec!["y".to_string(), "z".to_string()]);

    let options = merge_arg_items(vec![FieldArgItem::Long(LongArg::Explicit("name".to_string()))]);
    assert!(options.short.is_none());
    assert!(matches!(options.long, Some(LongArg::Explicit(ref l)) if l == "name"));
    assert!(options.aliases.is_empty());

    let options = merge_arg_items(vec![]);
    assert!(options.short.is_none() && options.long.is_none() && options.aliases.is_empty());
}

#[test]
fn test_tag_fields_with_a_short_mask_that_still_fits() {
    // The mask need only reach the words the fields claim.
    let style = ParserStyle::unix();
    let args = ["--a", "1", "free"];
    let a = PickerArgInfo::from_names(&["a"], None, false);
    let all = tag_fields(&args, &[0u8, 0u8], &[FieldShape::Single(a)], &style);
    assert_eq!(all, vec![0, 1]);
}

#[test]
fn test_bare_flag_alone_only_first() {
    let style = ParserStyle::unix();
    let args = ["--name", "--name", "x"];
    let info = PickerArgInfo::from_names(&["name"], None, false);
    let mask = [0u8; 3];
    let ctx = TagPhaseContext { arg_info: &info, args: &args, mask: &mask, style: &style };
    assert_eq!(SingleMatcher::tag(&ctx), vec![0, 1, 2]);
    let args = ["--name=a", "--name"];
    let ctx = TagPhaseContext { arg_info: &info, args: &args, mask: &mask[..2], style: &style };
    assert_eq!(SingleMatcher::tag(&ctx), vec![0]);
}

#[test]
fn test_white_space_is_what_std_says() {
    for code in 0u32..=0x10FFFF {
        if let Some(c) = char::from_u32(code) {
            assert_eq!(is_whitespace(c), c.is_whitespace(), "{code:#x}");
        }
    }
}

fn ident(s: &str) -> ArgToken {
    ArgToken::Ident(s.to_string())
}

fn lit(s: &str) -> ArgToken {
    ArgToken::StrLit(s.to_string())
}

#[test]
fn test_arg_attribute_grammar_reads_every_form() {
    // short, short = 'n', long, long = "name", aliases = ["a", "b",],
    let toks = vec![
        ident("short"), Comma,
        ident("short"), ArgToken::Eq, CharLit('n'), Comma,
        ident("long"), Comma,
        ident("long"), ArgToken::Eq, lit("name"), Comma,
        ident("aliases"), ArgToken::Eq, LBracket, lit("a"), Comma, lit("b"), Comma, RBracket, Comma,
    ];
    let items = parse_arg_items(&toks).unwrap();
    assert_eq!(items.len(), 5);
    assert!(matches!(items[0], FieldArgItem::Short(ShortArg::Implicit)));
    assert!(matches!(items[1], FieldArgItem::Short(ShortArg::Explicit('n'))));
    assert!(matches!(items[2], FieldArgItem::Long(LongArg::Implicit)));
    assert!(matches!(&items[3], FieldArgItem::Long(LongArg::Explicit(s)) if s == "name"));
    assert!(matches!(&items[4], FieldArgItem::Aliases(v) if v == &vec!["a".to_string(), "b".to_string()]));

    assert!(parse_arg_items(&[]).unwrap().is_empty());
    let empty_list = parse_arg_items(&[ident("aliases"), ArgToken::Eq, LBracket, RBracket]).unwrap();
    assert!(matches!(&empty_list[0], FieldArgItem::Aliases(v) if v.is_empty()));
}

#[test]
fn test_arg_attribute_grammar_refusals() {
    assert_eq!(parse_arg_items(&[ident("name")]).err(), Some(ArgAttrError::UnknownKey));
    assert_eq!(parse_arg_items(&[ident("short"), ArgToken::Eq]).err(), Some(ArgAttrError::Malformed));
    assert_eq!(parse_arg_items(&[ident("short"), ArgToken::Eq, lit("n")]).err(), Some(ArgAttrError::Malformed));
    assert_eq!(parse_arg_items(&[ident("long"), ArgToken::Eq, CharLit('n')]).err(), Some(ArgAttrError::Malformed));
    assert_eq!(parse_arg_items(&[ident("aliases")]).err(), Some(ArgAttrError::Malformed));
    assert_eq!(parse_arg_items(&[ident("aliases"), ArgToken::Eq, lit("a")]).err(), Some(ArgAttrError::Malformed));
    assert_eq!(
        parse_arg_items(&[ident("aliases"), ArgToken::Eq, LBracket, lit("a")]).err(),
        Some(ArgAttrError::Malformed)
    );
    assert_eq!(
        parse_arg_items(&[ident("aliases"), ArgToken::Eq, LBracket, lit("a"), lit("b"), RBracket]).err(),
        Some(ArgAttrError::Malformed)
    );
    assert_eq!(parse_arg_items(&[ident("short"), ident("long")]).err(), Some(ArgAttrError::Malformed));
    assert_eq!(parse_arg_items(&[Comma]).err(), Some(ArgAttrError::Malformed));
    assert_eq!(parse_arg_items(&[Other]).err(), Some(ArgAttrError::Malformed));
    assert_eq!(parse_arg_items(&[ident("short"), Comma, Comma]).err(), Some(ArgAttrError::Malformed));
    assert_eq!(
        parse_arg_items(&[ident("short"), Comma, ident("alias")]).err(),
        Some(ArgAttrError::UnknownKey)
    );
}

#[test]
fn test_arg_attribute_last_option_wins_from_tokens() {
    let toks = vec![
        ident("short"), ArgToken::Eq, CharLit('a'), Comma,
        ident("aliases"), ArgToken::Eq, LBracket, lit("x"), RBracket, Comma,
        ident("long"), Comma,
        ident("short"),
    ];
    let options = parse_arg_attr(&toks).unwrap();
    assert!(matches!(options.short, Some(ShortArg::Implicit)));
    assert!(matches!(options.long, Some(LongArg::Implicit)));
    assert_eq!(options.aliases, vec!["x".to_string()]);
    assert_eq!(parse_arg_attr(&[ident("hort")]).err(), Some(ArgAttrError::UnknownKey));
}
