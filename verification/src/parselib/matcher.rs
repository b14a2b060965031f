//! The matchers of the tag phase: which words of the command line an argument claims.

use vstd::prelude::*;
use crate::arg::{is_free, words, PickerArgInfo, TagPhaseContext};
use crate::parselib::utils::{
    build_possible_flags, is_flag_like, spec_is_end_of_options, spec_is_flag_like,
    spec_possible_flags, texts,
};
use crate::style::ParserStyle;
use crate::text::{concat_char, contains_char, same_word, starts_with_word, word_eq, word_prefix};
use vstd::string::StrSliceExecFns;

verus! {

/// The word at `k`, or the empty word when there is none.
pub open spec fn word_at(ws: Seq<Seq<char>>, k: int) -> Seq<char> {
    if 0 <= k < ws.len() {
        ws[k]
    } else {
        Seq::empty()
    }
}

/// The index of the first free end-of-options marker at or after `i`, or the number of words
/// when there is none.
pub open spec fn spec_end_from(ws: Seq<Seq<char>>, mask: Seq<u8>, style: ParserStyle, i: int) -> int
    decreases ws.len() - i,
{
    if i >= ws.len() {
        ws.len() as int
    } else if is_free(mask, i) && spec_is_end_of_options(ws[i], style) {
        i
    } else {
        spec_end_from(ws, mask, style, i + 1)
    }
}

/// The index of the first free end-of-options marker, or the number of words when there is
/// none: named arguments are sought before it, and every word after it is positional.
pub open spec fn spec_options_end(ws: Seq<Seq<char>>, mask: Seq<u8>, style: ParserStyle) -> int {
    spec_end_from(ws, mask, style, 0)
}

/// The word `w` is one of `flags` (the flag written alone) or one of them followed by the
/// value separator (the flag written with its value).
pub open spec fn names_arg(w: Seq<char>, flags: Seq<Seq<char>>, style: ParserStyle) -> bool {
    exists|j: int|
        0 <= j < flags.len() && (same_word(w, #[trigger] flags[j], style.case_sensitive)
            || word_prefix(w, flags[j].push(style.value_separator), style.case_sensitive))
}

/// The free words before `end`, from `i` on, that name the argument, each followed by the
/// word after it when that word is free, before `end`, a value (not flag-like), and the flag
/// does not carry its value inline.
pub open spec fn spec_match_all_from(
    ws: Seq<Seq<char>>,
    mask: Seq<u8>,
    flags: Seq<Seq<char>>,
    style: ParserStyle,
    end: int,
    i: int,
) -> Seq<usize>
    decreases end - i,
{
    if i >= end || i < 0 {
        Seq::empty()
    } else if is_free(mask, i) && names_arg(ws[i], flags, style) {
        if !ws[i].contains(style.value_separator) && i + 1 < end && is_free(mask, i + 1)
            && !spec_is_flag_like(ws[i + 1], style) {
            seq![i as usize, (i + 1) as usize] + spec_match_all_from(
                ws,
                mask,
                flags,
                style,
                end,
                i + 2,
            )
        } else {
            seq![i as usize] + spec_match_all_from(ws, mask, flags, style, end, i + 1)
        }
    } else {
        spec_match_all_from(ws, mask, flags, style, end, i + 1)
    }
}

/// What `ArgMatcher::match_all` claims for a named argument in a context.
pub open spec fn spec_match_all(
    ws: Seq<Seq<char>>,
    mask: Seq<u8>,
    info: PickerArgInfo,
    style: ParserStyle,
) -> Seq<usize> {
    spec_match_all_from(
        ws,
        mask,
        spec_possible_flags(style, info),
        style,
        spec_options_end(ws, mask, style),
        0,
    )
}

/// The first free word at or after `i` that a positional argument may take: a word after the
/// end-of-options marker, or a value (not flag-like) before it; the marker itself is never
/// taken.
pub open spec fn spec_match_one_from(
    ws: Seq<Seq<char>>,
    mask: Seq<u8>,
    style: ParserStyle,
    end: int,
    i: int,
) -> Option<usize>
    decreases ws.len() - i,
{
    if i >= ws.len() || i < 0 {
        None
    } else if is_free(mask, i) && i != end && (i > end || !spec_is_flag_like(ws[i], style)) {
        Some(i as usize)
    } else {
        spec_match_one_from(ws, mask, style, end, i + 1)
    }
}

/// What `PositionalMatcher::match_one` claims in a context.
pub open spec fn spec_match_one(ws: Seq<Seq<char>>, mask: Seq<u8>, style: ParserStyle) -> Option<
    usize,
> {
    spec_match_one_from(ws, mask, style, spec_options_end(ws, mask, style), 0)
}

/// The tag of a single-value named argument read from the matched positions `pos`, from the
/// `i`-th on; `none_yet` says that nothing has been tagged before.
///
/// A flag written with its value is tagged alone. A flag followed by a value is tagged with
/// it. A flag followed by no value is tagged alone when nothing was tagged before, and left
/// untagged otherwise.
pub open spec fn spec_single_tag_from(
    ws: Seq<Seq<char>>,
    pos: Seq<usize>,
    style: ParserStyle,
    i: int,
    none_yet: bool,
) -> Seq<usize>
    decreases pos.len() - i,
{
    if i >= pos.len() || i < 0 {
        Seq::empty()
    } else if word_at(ws, pos[i] as int).contains(style.value_separator) {
        seq![pos[i]] + spec_single_tag_from(ws, pos, style, i + 1, false)
    } else if i + 1 < pos.len() && !spec_is_flag_like(word_at(ws, pos[i + 1] as int), style) {
        seq![pos[i], pos[i + 1]] + spec_single_tag_from(ws, pos, style, i + 2, false)
    } else if none_yet {
        seq![pos[i]] + spec_single_tag_from(ws, pos, style, i + 1, false)
    } else {
        spec_single_tag_from(ws, pos, style, i + 1, none_yet)
    }
}

/// What `SingleMatcher::tag` claims for an argument in a context.
pub open spec fn spec_single_tag(
    ws: Seq<Seq<char>>,
    mask: Seq<u8>,
    info: PickerArgInfo,
    style: ParserStyle,
) -> Seq<usize> {
    if info.positional {
        match spec_match_one(ws, mask, style) {
            Some(i) => seq![i],
            None => Seq::empty(),
        }
    } else {
        spec_single_tag_from(ws, spec_match_all(ws, mask, info, style), style, 0, true)
    }
}

/// The index of the first free end-of-options marker, or the number of words.
fn options_end(args: &[&str], mask: &[u8], style: &ParserStyle) -> (r: usize)
    ensures
        r as int == spec_options_end(words(args@), mask@, *style),
{
    let ghost ws = words(args@);
    let mut i: usize = 0;
    while i < args.len()
        invariant
            i <= args@.len(),
            ws == words(args@),
            spec_end_from(ws, mask@, *style, 0) == spec_end_from(ws, mask@, *style, i as int),
        decreases args@.len() - i,
    {
        assert(ws[i as int] == args@[i as int]@);
        if (i >= mask.len() || mask[i] == 0) && word_eq(
            args[i],
            style.end_of_options,
            style.case_sensitive,
        ) {
            return i;
        }
        i = i + 1;
    }
    i
}

/// Whether the word `w` names the argument whose flags are `flags`.
fn names_arg_check(w: &str, flags: &[String], style: &ParserStyle) -> (r: bool)
    ensures
        r == names_arg(w@, texts(flags@), *style),
{
    let ghost fs = texts(flags@);
    let mut j: usize = 0;
    while j < flags.len()
        invariant
            j <= flags@.len(),
            fs == texts(flags@),
            forall|k: int|
                0 <= k < j ==> !(same_word(w@, #[trigger] fs[k], style.case_sensitive)
                    || word_prefix(w@, fs[k].push(style.value_separator), style.case_sensitive)),
        decreases flags@.len() - j,
    {
        let f: &str = flags[j].as_str();
        assert(fs[j as int] == f@);
        if word_eq(w, f, style.case_sensitive) {
            return true;
        }
        let with_sep = concat_char(f, style.value_separator);
        if starts_with_word(w, with_sep.as_str(), style.case_sensitive) {
            return true;
        }
        j = j + 1;
    }
    false
}

/// The matcher of named arguments.
pub struct ArgMatcher;

impl ArgMatcher {
    /// Every free word before the end-of-options marker that names the argument (as a flag
    /// alone, or with its value after the separator), each followed by the word after it when
    /// that word is free and a value rather than something flag-like; a flag written with its
    /// value claims nothing after it.
    pub fn match_all(ctx: &TagPhaseContext) -> (r: Vec<usize>)
        ensures
            r@ == spec_match_all(words(ctx.args@), ctx.mask@, *ctx.arg_info, *ctx.style),
    {
        let args = ctx.args;
        let mask = ctx.mask;
        let style = ctx.style;
        let ghost ws = words(args@);
        let flags = build_possible_flags(style, ctx.arg_info);
        let ghost fs = texts(flags@);
        let end = options_end(args, mask, style);
        let mut r: Vec<usize> = Vec::new();
        let mut i: usize = 0;
        proof {
            lemma_end_bounded(ws, mask@, *style, 0);
        }
        while i < end
            invariant
                end <= args@.len(),
                ws == words(args@),
                fs == texts(flags@),
                end as int == spec_options_end(ws, mask@, *style),
                i <= end + 1,
                r@ + spec_match_all_from(ws, mask@, fs, *style, end as int, i as int)
                    == spec_match_all_from(ws, mask@, fs, *style, end as int, 0),
            decreases end - i,
        {
            let w: &str = args[i];
            assert(ws[i as int] == w@);
            let free = i >= mask.len() || mask[i] == 0;
            if free && names_arg_check(w, flags.as_slice(), style) {
                let inline = contains_char(w, style.value_separator);
                let next_free = i + 1 < end && (i + 1 >= mask.len() || mask[i + 1] == 0);
                if !inline && next_free && !is_flag_like(args[i + 1], style) {
                    assert(ws[i + 1] == args@[i + 1]@);
                    let ghost before = r@;
                    r.push(i);
                    r.push(i + 1);
                    assert(r@ =~= before + seq![i as usize, (i + 1) as usize]);
                    i = i + 2;
                } else {
                    let ghost before = r@;
                    r.push(i);
                    assert(r@ =~= before + seq![i as usize]);
                    i = i + 1;
                }
            } else {
                i = i + 1;
            }
        }
        assert(spec_match_all_from(ws, mask@, fs, *style, end as int, i as int) =~= Seq::<
            usize,
        >::empty());
        assert(r@ =~= spec_match_all_from(ws, mask@, fs, *style, end as int, 0));
        r
    }
}

/// The end of options lies within the words.
pub(crate) proof fn lemma_end_bounded(ws: Seq<Seq<char>>, mask: Seq<u8>, style: ParserStyle, i: int)
    requires
        0 <= i,
    ensures
        spec_end_from(ws, mask, style, i) <= ws.len(),
        i <= ws.len() ==> i <= spec_end_from(ws, mask, style, i),
    decreases ws.len() - i,
{
    if i < ws.len() {
        lemma_end_bounded(ws, mask, style, i + 1);
    }
}

/// The matcher of positional arguments.
pub struct PositionalMatcher;

impl PositionalMatcher {
    /// The first free word a positional argument may take: a word after the end-of-options
    /// marker, whatever it looks like, or a value (not flag-like) before it.
    pub fn match_one(ctx: &TagPhaseContext) -> (r: Option<usize>)
        ensures
            r == spec_match_one(words(ctx.args@), ctx.mask@, *ctx.style),
    {
        let args = ctx.args;
        let mask = ctx.mask;
        let style = ctx.style;
        let ghost ws = words(args@);
        let end = options_end(args, mask, style);
        let mut i: usize = 0;
        while i < args.len()
            invariant
                args == ctx.args,
                mask == ctx.mask,
                style == ctx.style,
                i <= args@.len(),
                ws == words(args@),
                end as int == spec_options_end(ws, mask@, *style),
                spec_match_one_from(ws, mask@, *style, end as int, i as int) == spec_match_one_from(
                    ws,
                    mask@,
                    *style,
                    end as int,
                    0,
                ),
            decreases args@.len() - i,
        {
            assert(ws[i as int] == args@[i as int]@);
            let free = i >= mask.len() || mask[i] == 0;
            if free && i != end && (i > end || !is_flag_like(args[i], style)) {
                assert(spec_match_one_from(ws, mask@, *style, end as int, i as int) == Some(i));
                return Some(i);
            }
            i = i + 1;
        }
        None
    }
}

/// The matcher of single-value arguments.
///
/// It reads positional arguments with [`PositionalMatcher`] and named ones with
/// [`ArgMatcher`], with a guard: a named flag that is not followed by a value is kept in the
/// tag on its own, so that the reader is told the argument was named and not valued, which
/// is not the same as its not being there at all.
pub struct SingleMatcher;

impl SingleMatcher {
    /// Matches a single positional value, or a named flag with the value that follows it.
    ///
    /// A flag is paired with the word after it only when that word is a value. A flag whose
    /// next word names an option, or is the end-of-options marker, was given no value and is
    /// tagged alone; the word it was not paired with is left out of the tag, so that whatever
    /// it does name stays free to be matched on its own.
    pub fn tag(ctx: &TagPhaseContext) -> (r: Vec<usize>)
        ensures
            r@ == spec_single_tag(words(ctx.args@), ctx.mask@, *ctx.arg_info, *ctx.style),
    {
        if ctx.arg_info.positional {
            match PositionalMatcher::match_one(ctx) {
                Some(i) => {
                    let mut r: Vec<usize> = Vec::new();
                    r.push(i);
                    assert(r@ =~= seq![i]);
                    r
                },
                None => Vec::new(),
            }
        } else {
            let args = ctx.args;
            let style = ctx.style;
            let sep = style.value_separator;
            let ghost ws = words(args@);
            let positions = ArgMatcher::match_all(ctx);
            let ghost pos = positions@;
            let mut i: usize = 0;
            let mut result: Vec<usize> = Vec::new();
            while i < positions.len()
                invariant
                    args == ctx.args,
                    style == ctx.style,
                    sep == style.value_separator,
                    ws == words(args@),
                    pos == positions@,
                    i <= positions@.len() + 1,
                    result@ + spec_single_tag_from(ws, pos, *style, i as int, result@.len() == 0)
                        == spec_single_tag_from(ws, pos, *style, 0, true),
                decreases positions@.len() - i,
            {
                let flag_idx = positions[i];
                let flag: &str = word_or_empty(args, flag_idx);
                let ghost none_yet = result@.len() == 0;
                let ghost tail = spec_single_tag_from(ws, pos, *style, i as int, none_yet);
                if contains_char(flag, sep) {
                    let ghost before = result@;
                    result.push(flag_idx);
                    assert(result@ =~= before + seq![flag_idx]);
                    i = i + 1;
                } else {
                    let has_value = i + 1 < positions.len() && !is_flag_like(
                        word_or_empty(args, positions[i + 1]),
                        style,
                    );
                    if has_value {
                        let value_idx = positions[i + 1];
                        let ghost before = result@;
                        result.push(flag_idx);
                        result.push(value_idx);
                        assert(result@ =~= before + seq![flag_idx, value_idx]);
                        i = i + 2;
                    } else if result.len() == 0 {
                        let ghost before = result@;
                        result.push(flag_idx);
                        assert(result@ =~= before + seq![flag_idx]);
                        i = i + 1;
                    } else {
                        proof {
                            lemma_tag_skip(ws, pos, *style, i as int, none_yet);
                        }
                        i = i + 1;
                    }
                }
            }
            assert(spec_single_tag_from(ws, pos, *style, i as int, result@.len() == 0) =~= Seq::<
                usize,
            >::empty());
            assert(result@ =~= spec_single_tag_from(ws, pos, *style, 0, true));
            result
        }
    }
}

/// A flag with no value after it, once something is tagged, is passed over.
proof fn lemma_tag_skip(ws: Seq<Seq<char>>, pos: Seq<usize>, style: ParserStyle, i: int, none_yet: bool)
    requires
        0 <= i < pos.len(),
        !word_at(ws, pos[i] as int).contains(style.value_separator),
        !(i + 1 < pos.len() && !spec_is_flag_like(word_at(ws, pos[i + 1] as int), style)),
        !none_yet,
    ensures
        spec_single_tag_from(ws, pos, style, i, none_yet) == spec_single_tag_from(
            ws,
            pos,
            style,
            i + 1,
            none_yet,
        ),
{
}

/// The word at `k`, or the empty word when there is none.
fn word_or_empty<'a>(args: &'a [&'a str], k: usize) -> (r: &'a str)
    ensures
        r@ == word_at(words(args@), k as int),
{
    if k < args.len() {
        args[k]
    } else {
        proof {
            reveal_strlit("");
        }
        ""
    }
}

} // verus!
