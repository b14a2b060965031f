//! Building flags, telling flags from values, reading a single value, and seeking words.

use vstd::prelude::*;
use crate::arg::{MaskedArg, PickerArgInfo};
use crate::style::{spec_convert, ParserStyle};
use crate::text::{
    contains, contains_char, ends_with, has_infix, has_prefix, has_suffix, index_of,
    find_char, same_word, starts_with, to_lowercase, unicode_lowercase, word_eq,
};
use vstd::string::StrSliceExecFns;

verus! {

// ---------------------------------------------------------------------------------------
// Possible flags
// ---------------------------------------------------------------------------------------

/// The flags that name an argument: its short flag, its long flag, then one long flag per
/// alias, long names written in the style's naming convention.
pub open spec fn spec_possible_flags(style: ParserStyle, info: PickerArgInfo) -> Seq<Seq<char>> {
    let short_part: Seq<Seq<char>> = match info.short {
        Some(c) => seq![style.spec_short_flag(c)],
        None => Seq::empty(),
    };
    let long_part: Seq<Seq<char>> = match info.long {
        Some(l) => seq![style.spec_long_flag(spec_convert(style.naming_case, l@))],
        None => Seq::empty(),
    };
    let alias_part: Seq<Seq<char>> = match info.alias {
        Some(a) => a@.map_values(
            |x: String| style.spec_long_flag(spec_convert(style.naming_case, x@)),
        ),
        None => Seq::empty(),
    };
    short_part + long_part + alias_part
}

/// The characters of each string.
pub open spec fn texts(v: Seq<String>) -> Seq<Seq<char>> {
    v.map_values(|s: String| s@)
}

/// The flags made of an optional short name and long names already written in the style's
/// naming convention: the short flag first, then one long flag per name, in order.
pub fn assemble_flags(style: &ParserStyle, short: Option<char>, long_names: &[String]) -> (r: Vec<
    String,
>)
    ensures
        texts(r@) == (match short {
            Some(c) => seq![style.spec_short_flag(c)],
            None => Seq::<Seq<char>>::empty(),
        }) + long_names@.map_values(|n: String| style.spec_long_flag(n@)),
{
    let mut flags: Vec<String> = Vec::new();
    if let Some(c) = short {
        flags.push(style.short_flag_string(c));
    }
    let ghost start: Seq<Seq<char>> = texts(flags@);
    let mut i: usize = 0;
    while i < long_names.len()
        invariant
            i <= long_names@.len(),
            start == (match short {
                Some(c) => seq![style.spec_short_flag(c)],
                None => Seq::<Seq<char>>::empty(),
            }),
            texts(flags@) =~= start + long_names@.take(i as int).map_values(
                |n: String| style.spec_long_flag(n@),
            ),
        decreases long_names@.len() - i,
    {
        let flag = style.long_flag_string(long_names[i].as_str());
        let ghost before = flags@;
        flags.push(flag);
        assert(texts(flags@) =~= texts(before).push(flag@));
        assert(long_names@.take(i + 1) =~= long_names@.take(i as int).push(long_names@[i as int]));
        i = i + 1;
    }
    assert(long_names@.take(i as int) =~= long_names@);
    flags
}

/// Builds the flags that name an argument (such as `-h` and `--help`) from its short name, its
/// long name and its aliases; long names are written in the style's naming convention first.
pub fn build_possible_flags(style: &ParserStyle, arg_info: &PickerArgInfo) -> (r: Vec<String>)
    ensures
        texts(r@) == spec_possible_flags(*style, *arg_info),
{
    let mut converted: Vec<String> = Vec::new();
    if let Some(long) = &arg_info.long {
        converted.push(style.naming_case.convert(long.as_str()));
    }
    let ghost head: Seq<String> = converted@;
    assert(arg_info.long matches Some(l) ==> head.len() == 1 && head[0]@ == spec_convert(
        style.naming_case,
        l@,
    ));
    assert(arg_info.long is None ==> head.len() == 0);
    if let Some(aliases) = &arg_info.alias {
        let mut i: usize = 0;
        while i < aliases.len()
            invariant
                i <= aliases@.len(),
                converted@.len() == head.len() + i,
                forall|k: int| 0 <= k < head.len() ==> #[trigger] converted@[k] == head[k],
                forall|k: int|
                    0 <= k < i ==> #[trigger] converted@[head.len() + k]@ == spec_convert(
                        style.naming_case,
                        aliases@[k]@,
                    ),
            decreases aliases@.len() - i,
        {
            let c = style.naming_case.convert(aliases[i].as_str());
            converted.push(c);
            i = i + 1;
        }
    }
    assert(arg_info.alias is None ==> converted@ == head);
    let r = assemble_flags(style, arg_info.short, converted.as_slice());
    let ghost long_part: Seq<Seq<char>> = match &arg_info.long {
        Some(l) => seq![style.spec_long_flag(spec_convert(style.naming_case, l@))],
        None => Seq::empty(),
    };
    let ghost alias_part: Seq<Seq<char>> = match &arg_info.alias {
        Some(a) => a@.map_values(
            |x: String| style.spec_long_flag(spec_convert(style.naming_case, x@)),
        ),
        None => Seq::empty(),
    };
    let ghost lhs = converted@.map_values(|n: String| style.spec_long_flag(n@));
    assert(lhs.len() == (long_part + alias_part).len());
    assert forall|k: int| 0 <= k < lhs.len() implies lhs[k] == (long_part + alias_part)[k] by {
        if k >= head.len() {
            let j = k - head.len();
            assert(converted@[head.len() + j] == converted@[k]);
        }
    }
    assert(lhs =~= long_part + alias_part);
    assert(texts(r@) =~= spec_possible_flags(*style, *arg_info));
    r
}

// ---------------------------------------------------------------------------------------
// Flags and values
// ---------------------------------------------------------------------------------------

/// `w` is the prefix `p` followed by a name that is not empty.
pub open spec fn names_with(w: Seq<char>, p: Seq<char>) -> bool {
    has_prefix(w, p) && w.len() > p.len()
}

/// `w` is the style's end-of-options marker.
pub open spec fn spec_is_end_of_options(w: Seq<char>, style: ParserStyle) -> bool {
    same_word(w, style.end_of_options@, style.case_sensitive)
}

/// `w` names an option rather than being a value: the long or the short prefix followed by a
/// name, or the end-of-options marker. A lone prefix is a value.
pub open spec fn spec_is_flag_like(w: Seq<char>, style: ParserStyle) -> bool {
    names_with(w, style.long_prefix@) || names_with(w, style.short_prefix@)
        || spec_is_end_of_options(w, style)
}

/// Whether `raw` names an option rather than being a value.
///
/// A word that starts with the style's long or short prefix followed by a name names an
/// option, and the end-of-options marker is a boundary rather than a word of its own: neither
/// is ever the value of a flag. A lone prefix, such as `-`, is a value.
pub fn is_flag_like(raw: &str, style: &ParserStyle) -> (r: bool)
    ensures
        r == spec_is_flag_like(raw@, *style),
{
    let n = raw.unicode_len();
    (starts_with(raw, style.long_prefix) && n > style.long_prefix.unicode_len()) || (starts_with(
        raw,
        style.short_prefix,
    ) && n > style.short_prefix.unicode_len()) || is_end_of_options(raw, style)
}

/// Whether `raw` is the style's end-of-options marker.
fn is_end_of_options(raw: &str, style: &ParserStyle) -> (r: bool)
    ensures
        r == spec_is_end_of_options(raw@, *style),
{
    word_eq(raw, style.end_of_options, style.case_sensitive)
}

// ---------------------------------------------------------------------------------------
// Reading one value
// ---------------------------------------------------------------------------------------

/// The value held by the words tagged for a single-value argument: nothing when no word was
/// tagged; for more words, the second (the word that followed the flag); for one word, the
/// inline value when the word is a flag written with one (everything after the first value
/// separator, the one that ends the flag), and otherwise the word itself.
pub open spec fn spec_seek_single(raws: Seq<Seq<char>>, style: ParserStyle) -> Option<Seq<char>> {
    if raws.len() == 0 {
        None
    } else if raws.len() == 1 {
        let w = raws[0];
        if spec_is_flag_like(w, style) {
            match index_of(w, style.value_separator) {
                Some(p) => Some(w.subrange(p + 1, w.len() as int)),
                None => Some(w),
            }
        } else {
            Some(w)
        }
    } else {
        Some(raws[1])
    }
}

/// As `spec_seek_single`, for the argument being read: the one tagged word of a positional
/// argument is its value whole, whatever it looks like; and a named argument whose one tagged
/// word is flag-like and carries no inline value has no value, that word being the flag itself.
pub open spec fn spec_seek_single_with(
    raws: Seq<Seq<char>>,
    positional: bool,
    style: ParserStyle,
) -> Option<Seq<char>> {
    if raws.len() == 1 && positional {
        Some(raws[0])
    } else if raws.len() == 1 && !raws[0].contains(style.value_separator)
        && spec_is_flag_like(raws[0], style) {
        None
    } else {
        spec_seek_single(raws, style)
    }
}

/// The characters of an optional word.
pub open spec fn opt_text(o: Option<&str>) -> Option<Seq<char>> {
    match o {
        Some(s) => Some(s@),
        None => None,
    }
}

/// Extracts the single value from the words tagged for a single-value argument.
///
/// Returns `None` when no word was tagged; the inline value, everything after the value
/// separator that ends the flag, when the one tagged word is a flag written with one; and
/// otherwise the value directly (a positional word, or the word that followed the flag).
pub fn seek_single<'a>(raw_strs: &'a [&'a str], style: &ParserStyle) -> (r: Option<&'a str>)
    ensures
        opt_text(r) == spec_seek_single(crate::arg::words(raw_strs@), *style),
{
    let ghost ws = crate::arg::words(raw_strs@);
    if raw_strs.len() == 0 {
        None
    } else if raw_strs.len() == 1 {
        let s: &'a str = raw_strs[0];
        assert(ws[0] == s@);
        if !is_flag_like(s, style) {
            return Some(s);
        }
        proof {
            crate::text::lemma_index_of(s@, style.value_separator);
        }
        let n = s.unicode_len();
        match find_char(s, style.value_separator) {
            Some(pos) => Some(s.substring_char(pos + 1, n)),
            None => Some(s),
        }
    } else {
        assert(ws[1] == raw_strs@[1]@);
        Some(raw_strs[1])
    }
}

/// Extracts the single value, with the argument it is being read for.
///
/// As [`seek_single`], except that the one tagged word of a positional argument is its value
/// whole, whatever it looks like, and a named argument whose one tagged word is flag-like, and
/// carries no inline value, has no value: the word is the flag itself, tagged alone because
/// no value followed it.
pub fn seek_single_with<'a>(raw_strs: &'a [&'a str], info: &PickerArgInfo, style: &ParserStyle) -> (r:
    Option<&'a str>)
    ensures
        opt_text(r) == spec_seek_single_with(
            crate::arg::words(raw_strs@),
            info.positional,
            *style,
        ),
{
    let ghost ws = crate::arg::words(raw_strs@);
    if raw_strs.len() == 1 {
        let only: &'a str = raw_strs[0];
        assert(ws[0] == only@);
        if info.positional {
            return Some(only);
        }
        if !contains_char(only, style.value_separator) && is_flag_like(only, style) {
            return None;
        }
    }
    seek_single(raw_strs, style)
}

// ---------------------------------------------------------------------------------------
// Seeking words
// ---------------------------------------------------------------------------------------

/// How a word is compared with the text sought.
#[derive(Clone, Copy, Debug, PartialEq, Eq, Structural)]
pub enum SeekRule {
    /// The word is the text.
    Equal,
    /// The text occurs in the word.
    Contains,
    /// The word starts with the text.
    StartsWith,
    /// The word ends with the text.
    EndsWith,
}

/// Whether the word `w` answers the text `s` under `rule`. Equality without regard to case
/// compares ASCII letters alone; the other rules compare the Unicode lowercase of both.
pub open spec fn rule_holds(rule: SeekRule, w: Seq<char>, s: Seq<char>, case_sensitive: bool) -> bool {
    match rule {
        SeekRule::Equal => same_word(w, s, case_sensitive),
        SeekRule::Contains => if case_sensitive {
            has_infix(w, s)
        } else {
            has_infix(unicode_lowercase(w), unicode_lowercase(s))
        },
        SeekRule::StartsWith => if case_sensitive {
            has_prefix(w, s)
        } else {
            has_prefix(unicode_lowercase(w), unicode_lowercase(s))
        },
        SeekRule::EndsWith => if case_sensitive {
            has_suffix(w, s)
        } else {
            has_suffix(unicode_lowercase(w), unicode_lowercase(s))
        },
    }
}

/// Whether the word `w` answers at least one of `strings` under `rule`.
pub open spec fn any_rule_holds(
    rule: SeekRule,
    w: Seq<char>,
    strings: Seq<Seq<char>>,
    case_sensitive: bool,
) -> bool {
    exists|j: int| 0 <= j < strings.len() && #[trigger] rule_holds(rule, w, strings[j], case_sensitive)
}

/// The indices of the words that answer `s` under `rule`, in order.
pub open spec fn spec_seek(args: Seq<MaskedArg>, rule: SeekRule, s: Seq<char>, case_sensitive: bool) -> Seq<
    usize,
>
    decreases args.len(),
{
    if args.len() == 0 {
        Seq::empty()
    } else {
        let rest = spec_seek(args.drop_last(), rule, s, case_sensitive);
        if rule_holds(rule, args.last().raw@, s, case_sensitive) {
            rest.push(args.last().raw_idx)
        } else {
            rest
        }
    }
}

/// The indices of the words that answer at least one of `strings` under `rule`, in order.
pub open spec fn spec_multi_seek(
    args: Seq<MaskedArg>,
    rule: SeekRule,
    strings: Seq<Seq<char>>,
    case_sensitive: bool,
) -> Seq<usize>
    decreases args.len(),
{
    if args.len() == 0 {
        Seq::empty()
    } else {
        let rest = spec_multi_seek(args.drop_last(), rule, strings, case_sensitive);
        if any_rule_holds(rule, args.last().raw@, strings, case_sensitive) {
            rest.push(args.last().raw_idx)
        } else {
            rest
        }
    }
}

/// Whether `raw` answers `s` under `rule`; `lower_s` is the Unicode lowercase of `s`.
fn rule_check(rule: SeekRule, raw: &str, s: &str, lower_s: &str, case_sensitive: bool) -> (r: bool)
    requires
        lower_s@ == unicode_lowercase(s@),
    ensures
        r == rule_holds(rule, raw@, s@, case_sensitive),
{
    match rule {
        SeekRule::Equal => word_eq(raw, s, case_sensitive),
        _ => {
            if case_sensitive {
                match rule {
                    SeekRule::Contains => contains(raw, s),
                    SeekRule::StartsWith => starts_with(raw, s),
                    _ => ends_with(raw, s),
                }
            } else {
                let lower_raw = to_lowercase(raw);
                match rule {
                    SeekRule::Contains => contains(lower_raw.as_str(), lower_s),
                    SeekRule::StartsWith => starts_with(lower_raw.as_str(), lower_s),
                    _ => ends_with(lower_raw.as_str(), lower_s),
                }
            }
        },
    }
}

/// The indices of the words of `args` that answer `string` under `rule`.
fn seek_by(args: &[MaskedArg], string: &str, case_sensitive: bool, rule: SeekRule) -> (r: Vec<usize>)
    ensures
        r@ == spec_seek(args@, rule, string@, case_sensitive),
{
    let lower = to_lowercase(string);
    let mut r: Vec<usize> = Vec::new();
    let mut i: usize = 0;
    while i < args.len()
        invariant
            i <= args@.len(),
            lower@ == unicode_lowercase(string@),
            r@ == spec_seek(args@.take(i as int), rule, string@, case_sensitive),
        decreases args@.len() - i,
    {
        assert(args@.take(i + 1).drop_last() =~= args@.take(i as int));
        if rule_check(rule, args[i].raw.as_str(), string, lower.as_str(), case_sensitive) {
            r.push(args[i].raw_idx);
        }
        i = i + 1;
    }
    assert(args@.take(i as int) =~= args@);
    r
}

/// Whether `raw` answers at least one of `strings` under `rule`.
fn any_rule_check(rule: SeekRule, raw: &str, strings: &[&str], case_sensitive: bool) -> (r: bool)
    ensures
        r == any_rule_holds(rule, raw@, crate::arg::words(strings@), case_sensitive),
{
    let ghost ws = crate::arg::words(strings@);
    let mut j: usize = 0;
    while j < strings.len()
        invariant
            j <= strings@.len(),
            ws == crate::arg::words(strings@),
            forall|k: int| 0 <= k < j ==> !#[trigger] rule_holds(rule, raw@, ws[k], case_sensitive),
        decreases strings@.len() - j,
    {
        let s: &str = strings[j];
        let lower = to_lowercase(s);
        if rule_check(rule, raw, s, lower.as_str(), case_sensitive) {
            assert(rule_holds(rule, raw@, ws[j as int], case_sensitive));
            return true;
        }
        j = j + 1;
    }
    false
}

/// The indices of the words of `args` that answer at least one of `strings` under `rule`.
fn multi_seek_by(args: &[MaskedArg], strings: &[&str], case_sensitive: bool, rule: SeekRule) -> (r: Vec<
    usize,
>)
    ensures
        r@ == spec_multi_seek(args@, rule, crate::arg::words(strings@), case_sensitive),
{
    let mut r: Vec<usize> = Vec::new();
    let mut i: usize = 0;
    while i < args.len()
        invariant
            i <= args@.len(),
            r@ == spec_multi_seek(
                args@.take(i as int),
                rule,
                crate::arg::words(strings@),
                case_sensitive,
            ),
        decreases args@.len() - i,
    {
        assert(args@.take(i + 1).drop_last() =~= args@.take(i as int));
        if any_rule_check(rule, args[i].raw.as_str(), strings, case_sensitive) {
            r.push(args[i].raw_idx);
        }
        i = i + 1;
    }
    assert(args@.take(i as int) =~= args@);
    r
}

/// The index of the first end-of-options marker among `args`, compared as the style
/// compares words.
pub open spec fn spec_seek_end_of_options(args: Seq<MaskedArg>, style: ParserStyle) -> Option<usize> {
    let found = spec_seek(args, SeekRule::Equal, style.end_of_options@, style.case_sensitive);
    if found.len() > 0 {
        Some(found[0])
    } else {
        None
    }
}

/// Seeks the index of the end-of-options marker in the argument list, respecting the style's
/// case sensitivity. Every word after it is positional.
pub fn seek_end_of_options(args: &[MaskedArg], style: &ParserStyle) -> (r: Option<usize>)
    ensures
        r == spec_seek_end_of_options(args@, *style),
{
    get_seeked_first(seek_by(args, style.end_of_options, style.case_sensitive, SeekRule::Equal))
}

/// Seeks the words exactly equal to `string`; returns their indices.
pub fn seek_eq(args: &[MaskedArg], string: &str, case_sensitive: bool) -> (r: Vec<usize>)
    ensures
        r@ == spec_seek(args@, SeekRule::Equal, string@, case_sensitive),
{
    seek_by(args, string, case_sensitive, SeekRule::Equal)
}

/// Seeks the words that contain `string`; returns their indices.
pub fn seek_contains(args: &[MaskedArg], string: &str, case_sensitive: bool) -> (r: Vec<usize>)
    ensures
        r@ == spec_seek(args@, SeekRule::Contains, string@, case_sensitive),
{
    seek_by(args, string, case_sensitive, SeekRule::Contains)
}

/// Seeks the words that start with `string`; returns their indices.
pub fn seek_start_with(args: &[MaskedArg], string: &str, case_sensitive: bool) -> (r: Vec<usize>)
    ensures
        r@ == spec_seek(args@, SeekRule::StartsWith, string@, case_sensitive),
{
    seek_by(args, string, case_sensitive, SeekRule::StartsWith)
}

/// Seeks the words that end with `string`; returns their indices.
pub fn seek_end_with(args: &[MaskedArg], string: &str, case_sensitive: bool) -> (r: Vec<usize>)
    ensures
        r@ == spec_seek(args@, SeekRule::EndsWith, string@, case_sensitive),
{
    seek_by(args, string, case_sensitive, SeekRule::EndsWith)
}

/// Seeks the words exactly equal to any of `strings`; returns their indices.
pub fn multi_seek_eq(args: &[MaskedArg], strings: &[&str], case_sensitive: bool) -> (r: Vec<usize>)
    ensures
        r@ == spec_multi_seek(args@, SeekRule::Equal, crate::arg::words(strings@), case_sensitive),
{
    multi_seek_by(args, strings, case_sensitive, SeekRule::Equal)
}

/// Seeks the words that contain any of `strings`; returns their indices.
pub fn multi_seek_contains(args: &[MaskedArg], strings: &[&str], case_sensitive: bool) -> (r: Vec<
    usize,
>)
    ensures
        r@ == spec_multi_seek(args@, SeekRule::Contains, crate::arg::words(strings@), case_sensitive),
{
    multi_seek_by(args, strings, case_sensitive, SeekRule::Contains)
}

/// Seeks the words that start with any of `strings`; returns their indices.
pub fn multi_seek_start_with(args: &[MaskedArg], strings: &[&str], case_sensitive: bool) -> (r: Vec<
    usize,
>)
    ensures
        r@ == spec_multi_seek(
            args@,
            SeekRule::StartsWith,
            crate::arg::words(strings@),
            case_sensitive,
        ),
{
    multi_seek_by(args, strings, case_sensitive, SeekRule::StartsWith)
}

/// Seeks the words that end with any of `strings`; returns their indices.
pub fn multi_seek_end_with(args: &[MaskedArg], strings: &[&str], case_sensitive: bool) -> (r: Vec<
    usize,
>)
    ensures
        r@ == spec_multi_seek(args@, SeekRule::EndsWith, crate::arg::words(strings@), case_sensitive),
{
    multi_seek_by(args, strings, case_sensitive, SeekRule::EndsWith)
}

/// Borrows each string of `input` as a string slice.
pub fn vec_string_to_vec_str(input: &[String]) -> (r: Vec<&str>)
    ensures
        crate::arg::words(r@) == texts(input@),
{
    let mut r: Vec<&str> = Vec::new();
    let mut i: usize = 0;
    while i < input.len()
        invariant
            i <= input@.len(),
            crate::arg::words(r@) =~= texts(input@.take(i as int)),
        decreases input@.len() - i,
    {
        let ghost before = r@;
        r.push(input[i].as_str());
        assert(crate::arg::words(r@) =~= crate::arg::words(before).push(input@[i as int]@));
        assert(input@.take(i + 1) =~= input@.take(i as int).push(input@[i as int]));
        i = i + 1;
    }
    assert(input@.take(i as int) =~= input@);
    r
}

/// The first of the indices a seek found, if it found any.
pub fn get_seeked_first(seeked: Vec<usize>) -> (r: Option<usize>)
    ensures
        seeked@.len() == 0 ==> r is None,
        seeked@.len() > 0 ==> r == Some(seeked@[0]),
{
    if seeked.len() == 0 {
        None
    } else {
        Some(seeked[0])
    }
}

} // verus!
