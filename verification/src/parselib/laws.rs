//! What every tag keeps: the laws of the matchers.

use vstd::prelude::*;
use crate::arg::{is_free, PickerArgInfo};
use crate::parselib::matcher::{
    names_arg, spec_match_all, spec_match_all_from, spec_match_one, spec_match_one_from,
    spec_options_end, spec_single_tag, spec_single_tag_from, word_at,
};
use crate::arg::MaskedArg;
use crate::parselib::utils::{
    any_rule_holds, rule_holds, spec_is_end_of_options, spec_is_flag_like, spec_multi_seek, spec_possible_flags, spec_seek,
    spec_seek_single, spec_seek_single_with, names_with, SeekRule,
};
use crate::text::{ascii_folded, word_prefix, eq_ascii_ci, has_infix, has_prefix, index_of, lemma_index_of, occurs_at, same_word};
use crate::style::ParserStyle;

verus! {

/// What a claimed word must be: free, before the end of options, and a word that names the
/// argument or a value.
pub open spec fn claimable(
    ws: Seq<Seq<char>>,
    mask: Seq<u8>,
    flags: Seq<Seq<char>>,
    style: ParserStyle,
    end: int,
    t: int,
) -> bool {
    &&& 0 <= t < end
    &&& is_free(mask, t)
    &&& (names_arg(ws[t], flags, style) || !spec_is_flag_like(ws[t], style))
}

proof fn lemma_match_all_from(
    ws: Seq<Seq<char>>,
    mask: Seq<u8>,
    flags: Seq<Seq<char>>,
    style: ParserStyle,
    end: int,
    i: int,
)
    requires
        end <= ws.len() <= usize::MAX,
        0 <= i,
    ensures
        ({
            let r = spec_match_all_from(ws, mask, flags, style, end, i);
            &&& forall|k: int| 0 <= k < r.len() ==> i <= #[trigger] r[k]
            &&& forall|k: int| 0 <= k < r.len() ==> claimable(ws, mask, flags, style, end, #[trigger] r[k] as int)
            &&& forall|k: int, l: int| 0 <= k < l < r.len() ==> r[k] < r[l]
            &&& r.len() > 0 ==> names_arg(ws[r[0] as int], flags, style)
        }),
    decreases end - i,
{
    if i < end {
        if is_free(mask, i) && names_arg(ws[i], flags, style) {
            if !ws[i].contains(style.value_separator) && i + 1 < end && is_free(mask, i + 1)
                && !spec_is_flag_like(ws[i + 1], style) {
                lemma_match_all_from(ws, mask, flags, style, end, i + 2);
            } else {
                lemma_match_all_from(ws, mask, flags, style, end, i + 1);
            }
        } else {
            lemma_match_all_from(ws, mask, flags, style, end, i + 1);
        }
    }
}

/// A named argument claims only free words before the end-of-options marker, in increasing
/// order, each a word that names the argument or a value, the first always a word that names
/// it: a flag-like word that names something else is never claimed.
pub proof fn law_match_all_claims_flags_and_values(
    ws: Seq<Seq<char>>,
    mask: Seq<u8>,
    info: PickerArgInfo,
    style: ParserStyle,
)
    requires
        ws.len() <= usize::MAX,
    ensures
        ({
            let r = spec_match_all(ws, mask, info, style);
            let flags = spec_possible_flags(style, info);
            let end = spec_options_end(ws, mask, style);
            &&& forall|k: int| 0 <= k < r.len() ==> claimable(ws, mask, flags, style, end, #[trigger] r[k] as int)
            &&& forall|k: int, l: int| 0 <= k < l < r.len() ==> r[k] < r[l]
            &&& r.len() > 0 ==> names_arg(ws[r[0] as int], flags, style)
        }),
{
    crate::parselib::matcher::lemma_end_bounded(ws, mask, style, 0);
    lemma_match_all_from(
        ws,
        mask,
        spec_possible_flags(style, info),
        style,
        spec_options_end(ws, mask, style),
        0,
    );
}

proof fn lemma_single_tag_from(
    ws: Seq<Seq<char>>,
    pos: Seq<usize>,
    style: ParserStyle,
    i: int,
    none_yet: bool,
)
    requires
        0 <= i,
        forall|k: int, l: int| 0 <= k < l < pos.len() ==> pos[k] < pos[l],
    ensures
        ({
            let r = spec_single_tag_from(ws, pos, style, i, none_yet);
            &&& forall|k: int|
                0 <= k < r.len() ==> exists|j: int| i <= j < pos.len() && #[trigger] r[k] == pos[j]
            &&& (none_yet && i < pos.len()) ==> r.len() > 0 && r[0] == pos[i]
            &&& forall|k: int, l: int| 0 <= k < l < r.len() ==> r[k] < r[l]
        }),
    decreases pos.len() - i,
{
    if i < pos.len() {
        let paired = i + 1 < pos.len() && !spec_is_flag_like(word_at(ws, pos[i + 1] as int), style);
        if word_at(ws, pos[i] as int).contains(style.value_separator) || (!paired && none_yet) {
            // The word at `pos[i]` is tagged alone.
            lemma_single_tag_from(ws, pos, style, i + 1, false);
            let r = spec_single_tag_from(ws, pos, style, i, none_yet);
            let rest = spec_single_tag_from(ws, pos, style, i + 1, false);
            assert(r == seq![pos[i]] + rest);
            assert forall|k: int| 0 <= k < r.len() implies exists|j: int|
                i <= j < pos.len() && #[trigger] r[k] == pos[j] by {
                if k == 0 {
                    assert(r[k] == pos[i]);
                } else {
                    assert(r[k] == rest[k - 1]);
                }
            }
            assert forall|k: int, l: int| 0 <= k < l < r.len() implies r[k] < r[l] by {
                assert(r[l] == rest[l - 1]);
                let jl = choose|j: int| i + 1 <= j < pos.len() && #[trigger] rest[l - 1] == pos[j];
                if k > 0 {
                    assert(r[k] == rest[k - 1]);
                }
            }
        } else if paired {
            lemma_single_tag_from(ws, pos, style, i + 2, false);
            let r = spec_single_tag_from(ws, pos, style, i, none_yet);
            let rest = spec_single_tag_from(ws, pos, style, i + 2, false);
            assert forall|k: int| 0 <= k < r.len() implies exists|j: int|
                i <= j < pos.len() && #[trigger] r[k] == pos[j] by {
                if k == 0 {
                    assert(r[k] == pos[i]);
                } else if k == 1 {
                    assert(r[k] == pos[i + 1]);
                } else {
                    assert(r[k] == rest[k - 2]);
                }
            }
            assert forall|k: int, l: int| 0 <= k < l < r.len() implies r[k] < r[l] by {
                if l >= 2 {
                    assert(r[l] == rest[l - 2]);
                    let jl = choose|j: int| i + 2 <= j < pos.len() && #[trigger] rest[l - 2] == pos[j];
                    if k >= 2 {
                        assert(r[k] == rest[k - 2]);
                    }
                }
            }
        } else {
            lemma_single_tag_from(ws, pos, style, i + 1, none_yet);
        }
    }
}

/// A named single-value argument tags only words that its matcher claimed, so every tagged
/// word is free, before the end-of-options marker, and a word that names the argument or a
/// value; a flag-like word that names something else stays free. When the argument is named
/// at all, the tag is not empty and starts with the first word that names it, so a flag
/// given no value is still told apart from a flag not given.
pub proof fn law_single_tag_named(
    ws: Seq<Seq<char>>,
    mask: Seq<u8>,
    info: PickerArgInfo,
    style: ParserStyle,
)
    requires
        !info.positional,
        ws.len() <= usize::MAX,
    ensures
        ({
            let r = spec_single_tag(ws, mask, info, style);
            let pos = spec_match_all(ws, mask, info, style);
            let flags = spec_possible_flags(style, info);
            let end = spec_options_end(ws, mask, style);
            &&& forall|k: int| 0 <= k < r.len() ==> claimable(ws, mask, flags, style, end, #[trigger] r[k] as int)
            &&& pos.len() > 0 ==> r.len() > 0 && r[0] == pos[0] && names_arg(
                ws[r[0] as int],
                flags,
                style,
            )
            &&& pos.len() == 0 ==> r.len() == 0
            &&& forall|k: int, l: int| 0 <= k < l < r.len() ==> r[k] < r[l]
        }),
{
    law_match_all_claims_flags_and_values(ws, mask, info, style);
    let pos = spec_match_all(ws, mask, info, style);
    lemma_single_tag_from(ws, pos, style, 0, true);
    let r = spec_single_tag(ws, mask, info, style);
    let flags = spec_possible_flags(style, info);
    let end = spec_options_end(ws, mask, style);
    assert forall|k: int| 0 <= k < r.len() implies claimable(ws, mask, flags, style, end, #[trigger] r[k] as int) by {
        let j = choose|j: int| 0 <= j < pos.len() && #[trigger] r[k] == pos[j];
        assert(claimable(ws, mask, flags, style, end, pos[j] as int));
    }
}

proof fn lemma_match_one_from(ws: Seq<Seq<char>>, mask: Seq<u8>, style: ParserStyle, end: int, i: int)
    requires
        0 <= i,
        ws.len() <= usize::MAX,
    ensures
        spec_match_one_from(ws, mask, style, end, i) matches Some(t) ==> {
            &&& i <= t < ws.len()
            &&& is_free(mask, t as int)
            &&& t != end
            &&& (t > end || !spec_is_flag_like(ws[t as int], style))
            &&& forall|k: int| i <= k < t ==> !positional_may_take(ws, mask, style, end, k)
        },
        spec_match_one_from(ws, mask, style, end, i) is None ==> forall|k: int|
            i <= k < ws.len() ==> !positional_may_take(ws, mask, style, end, k),
    decreases ws.len() - i,
{
    if i < ws.len() {
        lemma_match_one_from(ws, mask, style, end, i + 1);
    }
}

/// A word a positional argument may take: a free word that is not the end-of-options marker
/// `end`, after the marker whatever it looks like, before it a value (not flag-like).
pub open spec fn positional_may_take(
    ws: Seq<Seq<char>>,
    mask: Seq<u8>,
    style: ParserStyle,
    end: int,
    k: int,
) -> bool {
    &&& 0 <= k < ws.len()
    &&& is_free(mask, k)
    &&& k != end
    &&& (k > end || !spec_is_flag_like(ws[k], style))
}

/// A positional argument takes the first word it may take, in the order of the command line:
/// no word before the one it takes could have been taken, so a free value before the
/// end-of-options marker is taken before any word after it; and it takes nothing only when
/// no word could be taken.
pub proof fn law_positional_takes_first(ws: Seq<Seq<char>>, mask: Seq<u8>, style: ParserStyle)
    requires
        ws.len() <= usize::MAX,
    ensures
        ({
            let end = spec_options_end(ws, mask, style);
            &&& spec_match_one(ws, mask, style) matches Some(t) ==> positional_may_take(
                ws,
                mask,
                style,
                end,
                t as int,
            ) && forall|k: int| 0 <= k < t ==> !positional_may_take(ws, mask, style, end, k)
            &&& spec_match_one(ws, mask, style) is None ==> forall|k: int|
                0 <= k < ws.len() ==> !positional_may_take(ws, mask, style, end, k)
            &&& forall|k: int|
                #[trigger] positional_may_take(ws, mask, style, end, k) ==> (spec_match_one(
                    ws,
                    mask,
                    style,
                ) matches Some(t) && t <= k)
        }),
{
    let end = spec_options_end(ws, mask, style);
    lemma_match_one_from(ws, mask, style, end, 0);
}

/// A positional argument takes a free word that is not the end-of-options marker: after the
/// marker whatever it looks like, before it only a value.
pub proof fn law_positional_takes_values(ws: Seq<Seq<char>>, mask: Seq<u8>, style: ParserStyle)
    requires
        ws.len() <= usize::MAX,
    ensures
        spec_match_one(ws, mask, style) matches Some(t) ==> {
            let end = spec_options_end(ws, mask, style);
            &&& t < ws.len()
            &&& is_free(mask, t as int)
            &&& t != end
            &&& (t > end || !spec_is_flag_like(ws[t as int], style))
        },
{
    lemma_match_one_from(ws, mask, style, spec_options_end(ws, mask, style), 0);
}

/// Whatever the argument, its single-value tag holds free words of the command line, each at
/// most once.
pub proof fn law_single_tag_claims_free_words(
    ws: Seq<Seq<char>>,
    mask: Seq<u8>,
    info: PickerArgInfo,
    style: ParserStyle,
)
    requires
        ws.len() <= usize::MAX,
    ensures
        ({
            let r = spec_single_tag(ws, mask, info, style);
            &&& forall|k: int| 0 <= k < r.len() ==> #[trigger] r[k] < ws.len() && is_free(mask, r[k] as int)
            &&& forall|k: int, l: int| 0 <= k < l < r.len() ==> r[k] != r[l]
        }),
{
    crate::parselib::matcher::lemma_end_bounded(ws, mask, style, 0);
    if info.positional {
        law_positional_takes_values(ws, mask, style);
    } else {
        law_single_tag_named(ws, mask, info, style);
        let r = spec_single_tag(ws, mask, info, style);
        let flags = spec_possible_flags(style, info);
        let end = spec_options_end(ws, mask, style);
        assert forall|k: int| 0 <= k < r.len() implies #[trigger] r[k] < ws.len() && is_free(mask, r[k] as int) by {
            assert(claimable(ws, mask, flags, style, end, r[k] as int));
        }
    }
}

/// Every flag built for an argument is flag-like: its short flag, and each long flag whose
/// name is not empty. A flag is therefore never read as another flag's value.
pub proof fn law_flags_are_flag_like(style: ParserStyle, short: char, name: Seq<char>)
    ensures
        spec_is_flag_like(style.spec_short_flag(short), style),
        name.len() > 0 ==> spec_is_flag_like(style.spec_long_flag(name), style),
{
    assert(style.spec_short_flag(short).subrange(0, style.short_prefix@.len() as int)
        =~= style.short_prefix@);
    assert(style.spec_long_flag(name).subrange(0, style.long_prefix@.len() as int)
        =~= style.long_prefix@);
}

/// A value written with its flag is read back whole: the one word made of a flag that holds
/// no value separator, the separator and `value` reads as `value`, whatever `value` holds,
/// the separator included; and a flag followed by a word reads as that word.
pub proof fn law_inline_value_round_trip(flag: Seq<char>, value: Seq<char>, style: ParserStyle)
    requires
        names_with(flag, style.long_prefix@) || names_with(flag, style.short_prefix@),
        !flag.contains(style.value_separator),
    ensures
        spec_seek_single(seq![flag.push(style.value_separator) + value], style) == Some(value),
        spec_seek_single_with(seq![flag.push(style.value_separator) + value], false, style)
            == Some(value),
        spec_seek_single(seq![flag, value], style) == Some(value),
        spec_seek_single_with(seq![flag, value], false, style) == Some(value),
{
    let sep = style.value_separator;
    let w = flag.push(sep) + value;
    assert(w.subrange(0, style.long_prefix@.len() as int) =~= flag.subrange(0, style.long_prefix@.len() as int)
        || !names_with(flag, style.long_prefix@));
    assert(w.subrange(0, style.short_prefix@.len() as int) =~= flag.subrange(0, style.short_prefix@.len() as int)
        || !names_with(flag, style.short_prefix@));
    assert(spec_is_flag_like(w, style));
    lemma_index_of(w, sep);
    assert(w[flag.len() as int] == sep);
    assert(w.contains(sep));
    let p = index_of(w, sep)->0;
    if p < flag.len() {
        assert(flag[p] == w[p]);
    }
    assert(p == flag.len());
    assert(w.subrange(flag.len() as int + 1, w.len() as int) =~= value);
}

/// Compared with regard to case, a word is found only where it is also found without regard
/// to case.
pub proof fn law_exact_words_found_ignoring_case(args: Seq<MaskedArg>, s: Seq<char>)
    ensures
        forall|k: int|
            0 <= k < spec_seek(args, SeekRule::Equal, s, true).len() ==> spec_seek(
                args,
                SeekRule::Equal,
                s,
                false,
            ).contains(#[trigger] spec_seek(args, SeekRule::Equal, s, true)[k]),
    decreases args.len(),
{
    if args.len() > 0 {
        law_exact_words_found_ignoring_case(args.drop_last(), s);
        let a = spec_seek(args.drop_last(), SeekRule::Equal, s, true);
        let b = spec_seek(args.drop_last(), SeekRule::Equal, s, false);
        let w = args.last().raw@;
        if w == s {
            assert(eq_ascii_ci(w, s));
        }
        let ra = spec_seek(args, SeekRule::Equal, s, true);
        let rb = spec_seek(args, SeekRule::Equal, s, false);
        assert forall|k: int| 0 <= k < ra.len() implies rb.contains(#[trigger] ra[k]) by {
            if k < a.len() {
                assert(ra[k] == a[k]);
                assert(b.contains(a[k]));
                let q = choose|q: int| 0 <= q < b.len() && b[q] == a[k];
                assert(rb[q] == b[q]);
            } else {
                assert(rb[rb.len() - 1] == ra[k]);
            }
        }
    }
}

/// A word equal to the text starts with it, and a word that starts with the text contains
/// it: what an exact seek finds, a prefix seek finds, and what a prefix seek finds, a
/// containing seek finds.
pub proof fn law_seek_rules_nest(args: Seq<MaskedArg>, s: Seq<char>)
    ensures
        forall|k: int|
            0 <= k < spec_seek(args, SeekRule::Equal, s, true).len() ==> spec_seek(
                args,
                SeekRule::StartsWith,
                s,
                true,
            ).contains(#[trigger] spec_seek(args, SeekRule::Equal, s, true)[k]),
        forall|k: int|
            0 <= k < spec_seek(args, SeekRule::StartsWith, s, true).len() ==> spec_seek(
                args,
                SeekRule::Contains,
                s,
                true,
            ).contains(#[trigger] spec_seek(args, SeekRule::StartsWith, s, true)[k]),
    decreases args.len(),
{
    if args.len() > 0 {
        law_seek_rules_nest(args.drop_last(), s);
        let w = args.last().raw@;
        if w == s {
            assert(w.subrange(0, s.len() as int) =~= s);
        }
        if has_prefix(w, s) {
            assert(occurs_at(w, s, 0));
        }
        let e = spec_seek(args.drop_last(), SeekRule::Equal, s, true);
        let p = spec_seek(args.drop_last(), SeekRule::StartsWith, s, true);
        let c = spec_seek(args.drop_last(), SeekRule::Contains, s, true);
        let re = spec_seek(args, SeekRule::Equal, s, true);
        let rp = spec_seek(args, SeekRule::StartsWith, s, true);
        let rc = spec_seek(args, SeekRule::Contains, s, true);
        assert forall|k: int| 0 <= k < re.len() implies rp.contains(#[trigger] re[k]) by {
            if k < e.len() {
                assert(re[k] == e[k]);
                let q = choose|q: int| 0 <= q < p.len() && p[q] == e[k];
                assert(rp[q] == p[q]);
            } else {
                assert(rp[rp.len() - 1] == re[k]);
            }
        }
        assert forall|k: int| 0 <= k < rp.len() implies rc.contains(#[trigger] rp[k]) by {
            if k < p.len() {
                assert(rp[k] == p[k]);
                let q = choose|q: int| 0 <= q < c.len() && c[q] == p[k];
                assert(rc[q] == c[q]);
            } else {
                assert(rc[rc.len() - 1] == rp[k]);
            }
        }
    }
}

/// Seeking any of one text is seeking that text.
pub proof fn law_multi_seek_of_one(args: Seq<MaskedArg>, rule: SeekRule, s: Seq<char>, case_sensitive: bool)
    ensures
        spec_multi_seek(args, rule, seq![s], case_sensitive) == spec_seek(args, rule, s, case_sensitive),
    decreases args.len(),
{
    if args.len() > 0 {
        law_multi_seek_of_one(args.drop_last(), rule, s, case_sensitive);
        let w = args.last().raw@;
        if rule_holds(rule, w, s, case_sensitive) {
            assert(rule_holds(rule, w, seq![s][0], case_sensitive));
        }
        assert(any_rule_holds(rule, w, seq![s], case_sensitive) == rule_holds(rule, w, s, case_sensitive));
    }
}

/// The word at `k` is a flag written bare: flag-like, with no inline value.
pub open spec fn bare_flag_at(ws: Seq<Seq<char>>, k: usize, style: ParserStyle) -> bool {
    !word_at(ws, k as int).contains(style.value_separator) && spec_is_flag_like(
        word_at(ws, k as int),
        style,
    )
}

proof fn lemma_bare_flag_first_from(
    ws: Seq<Seq<char>>,
    pos: Seq<usize>,
    style: ParserStyle,
    i: int,
    none_yet: bool,
)
    requires
        0 <= i,
    ensures
        ({
            let r = spec_single_tag_from(ws, pos, style, i, none_yet);
            forall|k: int|
                0 <= k < r.len() && (k > 0 || !none_yet) && #[trigger] bare_flag_at(ws, r[k], style)
                    ==> k + 1 < r.len() && !spec_is_flag_like(word_at(ws, r[k + 1] as int), style)
        }),
    decreases pos.len() - i,
{
    if i < pos.len() {
        let r = spec_single_tag_from(ws, pos, style, i, none_yet);
        let paired = i + 1 < pos.len() && !spec_is_flag_like(word_at(ws, pos[i + 1] as int), style);
        if word_at(ws, pos[i] as int).contains(style.value_separator) || (!paired && none_yet) {
            // The word at `pos[i]` is tagged alone: it holds a value, or it is the first.
            let rest = spec_single_tag_from(ws, pos, style, i + 1, false);
            lemma_bare_flag_first_from(ws, pos, style, i + 1, false);
            assert(r == seq![pos[i]] + rest);
            assert forall|k: int|
                0 <= k < r.len() && (k > 0 || !none_yet) && #[trigger] bare_flag_at(ws, r[k], style)
                    implies k + 1 < r.len() && !spec_is_flag_like(word_at(ws, r[k + 1] as int), style) by {
                if k > 0 {
                    assert(r[k] == rest[k - 1]);
                    assert(bare_flag_at(ws, rest[k - 1], style));
                    assert(r[k + 1] == rest[k]);
                } else {
                    assert(r[0] == pos[i]);
                }
            }
        } else if paired {
            let rest = spec_single_tag_from(ws, pos, style, i + 2, false);
            lemma_bare_flag_first_from(ws, pos, style, i + 2, false);
            assert(r == seq![pos[i], pos[i + 1]] + rest);
            assert forall|k: int|
                0 <= k < r.len() && (k > 0 || !none_yet) && #[trigger] bare_flag_at(ws, r[k], style)
                    implies k + 1 < r.len() && !spec_is_flag_like(word_at(ws, r[k + 1] as int), style) by {
                if k >= 2 {
                    assert(r[k] == rest[k - 2]);
                    assert(bare_flag_at(ws, rest[k - 2], style));
                    assert(r[k + 1] == rest[k - 1]);
                } else if k == 0 {
                    assert(r[1] == pos[i + 1]);
                }
            }
        } else {
            lemma_bare_flag_first_from(ws, pos, style, i + 1, none_yet);
            assert(r == spec_single_tag_from(ws, pos, style, i + 1, none_yet));
        }
    }
}

/// A flag written bare, with no inline value, stands alone in a tag only as its first word:
/// anywhere after the first, a bare flag is followed in the tag by the value paired with it.
pub proof fn law_bare_flag_alone_only_first(
    ws: Seq<Seq<char>>,
    mask: Seq<u8>,
    info: PickerArgInfo,
    style: ParserStyle,
)
    ensures
        ({
            let r = spec_single_tag(ws, mask, info, style);
            forall|k: int|
                0 < k < r.len() && #[trigger] bare_flag_at(ws, r[k], style) ==> k + 1 < r.len()
                    && !spec_is_flag_like(word_at(ws, r[k + 1] as int), style)
        }),
{
    if !info.positional {
        lemma_bare_flag_first_from(ws, spec_match_all(ws, mask, info, style), style, 0, true);
    }
}

proof fn lemma_names_arg_carries(w: Seq<char>, w2: Seq<char>, flags: Seq<Seq<char>>, style: ParserStyle)
    requires
        !style.case_sensitive,
        eq_ascii_ci(w, w2),
        names_arg(w, flags, style),
    ensures
        names_arg(w2, flags, style),
{
    let j = choose|j: int|
        0 <= j < flags.len() && (same_word(w, #[trigger] flags[j], style.case_sensitive)
            || word_prefix(w, flags[j].push(style.value_separator), style.case_sensitive));
    let f = flags[j];
    if same_word(w, f, false) {
        assert forall|i: int| 0 <= i < w2.len() implies #[trigger] ascii_folded(w2[i])
            == ascii_folded(f[i]) by {
            assert(ascii_folded(w[i]) == ascii_folded(w2[i]));
            assert(ascii_folded(w[i]) == ascii_folded(f[i]));
        }
        assert(same_word(w2, flags[j], style.case_sensitive));
    } else {
        let p = f.push(style.value_separator);
        let a = w.subrange(0, p.len() as int);
        let a2 = w2.subrange(0, p.len() as int);
        assert forall|i: int| 0 <= i < a2.len() implies #[trigger] ascii_folded(a2[i])
            == ascii_folded(p[i]) by {
            assert(a[i] == w[i]);
            assert(a2[i] == w2[i]);
            assert(ascii_folded(w[i]) == ascii_folded(w2[i]));
            assert(ascii_folded(a[i]) == ascii_folded(p[i]));
        }
        assert(word_prefix(w2, flags[j].push(style.value_separator), style.case_sensitive));
    }
}

/// In a style that compares without regard to case, whether a word names an argument does
/// not depend on the ASCII case it is written in: as a flag alone or as a flag with its value.
pub proof fn law_names_arg_ignores_case(
    w: Seq<char>,
    w2: Seq<char>,
    flags: Seq<Seq<char>>,
    style: ParserStyle,
)
    requires
        !style.case_sensitive,
        eq_ascii_ci(w, w2),
    ensures
        names_arg(w, flags, style) == names_arg(w2, flags, style),
{
    assert forall|i: int| 0 <= i < w2.len() implies #[trigger] ascii_folded(w2[i])
        == ascii_folded(w[i]) by {
        assert(ascii_folded(w[i]) == ascii_folded(w2[i]));
    }
    if names_arg(w, flags, style) {
        lemma_names_arg_carries(w, w2, flags, style);
    }
    if names_arg(w2, flags, style) {
        lemma_names_arg_carries(w2, w, flags, style);
    }
}

/// A word made of one of an argument's flags, the value separator and a value names the
/// argument: written exactly so in any style, and in any ASCII case in a style that compares
/// without regard to case. So does the flag written alone.
pub proof fn law_flag_with_value_names_arg(
    w: Seq<char>,
    flags: Seq<Seq<char>>,
    j: int,
    value: Seq<char>,
    style: ParserStyle,
)
    requires
        0 <= j < flags.len(),
    ensures
        names_arg(flags[j], flags, style),
        names_arg(flags[j].push(style.value_separator) + value, flags, style),
        !style.case_sensitive && eq_ascii_ci(w, flags[j].push(style.value_separator) + value)
            ==> names_arg(w, flags, style),
        !style.case_sensitive && eq_ascii_ci(w, flags[j]) ==> names_arg(w, flags, style),
{
    let f = flags[j];
    let p = f.push(style.value_separator);
    let x = p + value;
    assert(x.subrange(0, p.len() as int) =~= p);
    assert(same_word(f, flags[j], style.case_sensitive));
    assert(same_word(x.subrange(0, p.len() as int), p, style.case_sensitive));
    assert(word_prefix(x, flags[j].push(style.value_separator), style.case_sensitive));
    if !style.case_sensitive && eq_ascii_ci(w, x) {
        law_names_arg_ignores_case(x, w, flags, style);
    }
    if !style.case_sensitive && eq_ascii_ci(w, f) {
        law_names_arg_ignores_case(f, w, flags, style);
    }
}

/// A named argument claims a free first word that names it (and is not the end-of-options
/// marker), in whatever form and, in a style that compares without regard to case, in
/// whatever ASCII case.
pub proof fn law_named_first_word_claimed(
    ws: Seq<Seq<char>>,
    mask: Seq<u8>,
    info: PickerArgInfo,
    style: ParserStyle,
)
    requires
        ws.len() > 0,
        is_free(mask, 0),
        !spec_is_end_of_options(ws[0], style),
        names_arg(ws[0], spec_possible_flags(style, info), style),
    ensures
        spec_match_all(ws, mask, info, style).len() > 0,
        spec_match_all(ws, mask, info, style)[0] == 0,
{
    crate::parselib::matcher::lemma_end_bounded(ws, mask, style, 1);
    let end = spec_options_end(ws, mask, style);
    assert(end == crate::parselib::matcher::spec_end_from(ws, mask, style, 1));
    assert(end >= 1);
}

} // verus!
