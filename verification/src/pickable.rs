//! Reading values from the words tagged for an argument.

use vstd::prelude::*;
use crate::arg::{words, PickerArgInfo, PickerArgResult};
use crate::parselib::utils::{
    opt_text, seek_single, seek_single_with, spec_is_flag_like, spec_seek_single,
    spec_seek_single_with,
};
use crate::style::ParserStyle;
use crate::text::{ascii_folded, eq_ascii_ci, eq_ignore_ascii_case, trim, trimmed};
use vstd::string::StrSliceExecFns;

verus! {

/// A type read from the single value of one argument.
///
/// `spec_pick_single` says what reading a value gives; `None` means no value was there.
pub trait SinglePickable: Sized {
    /// What reading the value `s` gives.
    spec fn spec_pick_single(s: Option<Seq<char>>) -> PickerArgResult<Self>;

    /// Reads the value `s`; `None` means no value was there.
    fn pick_single(s: Option<&str>) -> (r: PickerArgResult<Self>)
        ensures
            r == Self::spec_pick_single(opt_text(s)),
    ;
}

/// The text `true`.
pub open spec fn true_text() -> Seq<char> {
    seq!['t', 'r', 'u', 'e']
}

/// The text `false`.
pub open spec fn false_text() -> Seq<char> {
    seq!['f', 'a', 'l', 's', 'e']
}

impl SinglePickable for bool {
    /// `true` or `false` without regard to ASCII case, once surrounding white space is
    /// removed; anything else, or nothing, is not found.
    open spec fn spec_pick_single(s: Option<Seq<char>>) -> PickerArgResult<bool> {
        match s {
            Some(w) => if eq_ascii_ci(trimmed(w), true_text()) {
                PickerArgResult::Parsed(true)
            } else if eq_ascii_ci(trimmed(w), false_text()) {
                PickerArgResult::Parsed(false)
            } else {
                PickerArgResult::NotFound
            },
            None => PickerArgResult::NotFound,
        }
    }

    fn pick_single(s: Option<&str>) -> (r: PickerArgResult<bool>) {
        match s {
            Some(w) => {
                let t = trim(w);
                proof {
                    reveal_strlit("true");
                    reveal_strlit("false");
                }
                if eq_ignore_ascii_case(t, "true") {
                    PickerArgResult::Parsed(true)
                } else if eq_ignore_ascii_case(t, "false") {
                    PickerArgResult::Parsed(false)
                } else {
                    PickerArgResult::NotFound
                }
            },
            None => PickerArgResult::NotFound,
        }
    }
}

impl SinglePickable for char {
    /// A value of exactly one character is that character; anything else, or nothing, is not
    /// found.
    open spec fn spec_pick_single(s: Option<Seq<char>>) -> PickerArgResult<char> {
        match s {
            Some(w) => if w.len() == 1 {
                PickerArgResult::Parsed(w[0])
            } else {
                PickerArgResult::NotFound
            },
            None => PickerArgResult::NotFound,
        }
    }

    fn pick_single(s: Option<&str>) -> (r: PickerArgResult<char>) {
        match s {
            Some(w) => if w.unicode_len() == 1 {
                PickerArgResult::Parsed(w.get_char(0))
            } else {
                PickerArgResult::NotFound
            },
            None => PickerArgResult::NotFound,
        }
    }
}

/// What reading a single-value type from tagged words gives.
pub open spec fn spec_pick<S: SinglePickable>(raws: Seq<Seq<char>>, style: ParserStyle) -> PickerArgResult<S> {
    S::spec_pick_single(spec_seek_single(raws, style))
}

/// What reading a single-value type from tagged words gives, for the argument being read.
pub open spec fn spec_pick_with<S: SinglePickable>(
    raws: Seq<Seq<char>>,
    positional: bool,
    style: ParserStyle,
) -> PickerArgResult<S> {
    S::spec_pick_single(spec_seek_single_with(raws, positional, style))
}

/// What reading an optional single-value type from tagged words gives: a value read is
/// `Some`, nothing found is `None`, a value that does not read fails.
pub open spec fn spec_pick_option<S: SinglePickable>(raws: Seq<Seq<char>>, style: ParserStyle) -> PickerArgResult<
    Option<S>,
> {
    match spec_pick::<S>(raws, style) {
        PickerArgResult::Parsed(v) => PickerArgResult::Parsed(Some(v)),
        PickerArgResult::Unparsed => PickerArgResult::Unparsed,
        PickerArgResult::NotFound => PickerArgResult::Parsed(None),
    }
}

/// What reading an optional single-value type gives for the argument being read: nothing
/// where a value would be is `None`; a word that is there is read as the type inside reads it.
pub open spec fn spec_pick_option_with<S: SinglePickable>(
    raws: Seq<Seq<char>>,
    positional: bool,
    style: ParserStyle,
) -> PickerArgResult<Option<S>> {
    if spec_seek_single_with(raws, positional, style) is None {
        PickerArgResult::Parsed(None)
    } else {
        match spec_pick_with::<S>(raws, positional, style) {
            PickerArgResult::Parsed(v) => PickerArgResult::Parsed(Some(v)),
            PickerArgResult::Unparsed => PickerArgResult::Unparsed,
            PickerArgResult::NotFound => PickerArgResult::NotFound,
        }
    }
}

/// Reads a single-value type from the words tagged for it.
pub fn pick<S: SinglePickable>(raw_strs: &[&str], style: &ParserStyle) -> (r: PickerArgResult<S>)
    ensures
        r == spec_pick::<S>(words(raw_strs@), *style),
{
    S::pick_single(seek_single(raw_strs, style))
}

/// Reads a single-value type from the words tagged for the argument `info`.
pub fn pick_with<S: SinglePickable>(raw_strs: &[&str], info: &PickerArgInfo, style: &ParserStyle) -> (r:
    PickerArgResult<S>)
    ensures
        r == spec_pick_with::<S>(words(raw_strs@), info.positional, *style),
{
    S::pick_single(seek_single_with(raw_strs, info, style))
}

/// Reads an optional single-value type from the words tagged for it.
pub fn pick_option<S: SinglePickable>(raw_strs: &[&str], style: &ParserStyle) -> (r: PickerArgResult<
    Option<S>,
>)
    ensures
        r == spec_pick_option::<S>(words(raw_strs@), *style),
{
    match pick::<S>(raw_strs, style) {
        PickerArgResult::Unparsed => PickerArgResult::Unparsed,
        PickerArgResult::Parsed(v) => PickerArgResult::Parsed(Some(v)),
        PickerArgResult::NotFound => PickerArgResult::Parsed(None),
    }
}

/// Reads an optional single-value type from the words tagged for the argument `info`.
///
/// Nothing where a value would be is `None`: the argument not given at all, and the argument
/// named and left without a value. A word that is there is read exactly as the type inside
/// reads it, so one that does not read is still a failure rather than an absence.
pub fn pick_option_with<S: SinglePickable>(
    raw_strs: &[&str],
    info: &PickerArgInfo,
    style: &ParserStyle,
) -> (r: PickerArgResult<Option<S>>)
    ensures
        r == spec_pick_option_with::<S>(words(raw_strs@), info.positional, *style),
{
    if seek_single_with(raw_strs, info, style).is_none() {
        return PickerArgResult::Parsed(None);
    }
    match pick_with::<S>(raw_strs, info, style) {
        PickerArgResult::Parsed(v) => PickerArgResult::Parsed(Some(v)),
        PickerArgResult::Unparsed => PickerArgResult::Unparsed,
        PickerArgResult::NotFound => PickerArgResult::NotFound,
    }
}

/// A named argument that was given and left without a value reads as one that was not given:
/// its one tagged word, a flag with no inline value, gives the value nothing, and so does no
/// word at all.
pub proof fn law_valueless_is_absent(w: Seq<char>, style: ParserStyle)
    requires
        spec_is_flag_like(w, style),
        !w.contains(style.value_separator),
    ensures
        spec_seek_single_with(seq![w], false, style) == spec_seek_single_with(
            Seq::empty(),
            false,
            style,
        ),
        spec_seek_single_with(seq![w], false, style) is None,
{
}

/// What a named argument given no value reads as is what its type reads when the argument is
/// not there at all: a required type gets the same result, and an optional type is `None`
/// both times.
pub proof fn law_valueless_reads_as_absent<S: SinglePickable>(w: Seq<char>, style: ParserStyle)
    requires
        spec_is_flag_like(w, style),
        !w.contains(style.value_separator),
    ensures
        spec_pick_with::<S>(seq![w], false, style) == spec_pick_with::<S>(Seq::empty(), false, style),
        spec_pick_with::<S>(seq![w], false, style) == S::spec_pick_single(None),
        spec_pick_option_with::<S>(seq![w], false, style) == PickerArgResult::<Option<S>>::Parsed(None),
        spec_pick_option_with::<S>(Seq::empty(), false, style) == PickerArgResult::<Option<S>>::Parsed(
            None,
        ),
{
    law_valueless_is_absent(w, style);
}

/// A positional argument is read from its word whatever the word looks like: its one tagged
/// word is its value whole, even one that looks like a flag or holds the value separator, and
/// the type reads that word.
pub proof fn law_positional_reads_plainly<S: SinglePickable>(w: Seq<char>, style: ParserStyle)
    ensures
        spec_seek_single_with(seq![w], true, style) == Some(w),
        spec_pick_with::<S>(seq![w], true, style) == S::spec_pick_single(Some(w)),
{
}

/// A character value is any value of exactly one character, whatever that character is (a
/// tab or a space included); a value of another length, or no value, is not found. A
/// positional argument of one character reads as that character.
pub proof fn law_char_reads_one_character(w: Seq<char>, style: ParserStyle)
    ensures
        w.len() == 1 ==> <char as SinglePickable>::spec_pick_single(Some(w))
            == PickerArgResult::Parsed(w[0]),
        w.len() != 1 ==> <char as SinglePickable>::spec_pick_single(Some(w))
            is NotFound,
        <char as SinglePickable>::spec_pick_single(None) is NotFound,
        w.len() == 1 ==> spec_pick_with::<char>(seq![w], true, style) == PickerArgResult::Parsed(
            w[0],
        ),
{
}

/// Reading an optional value is reading the value inside, except that nothing found is `None`
/// rather than a failure: a value read is `Some` of it, a value that does not read is still a
/// failure, and an argument with nothing to read is `None` wherever the type inside reads
/// nothing as not found.
pub proof fn law_option_reads_absence_as_none<S: SinglePickable>(raws: Seq<Seq<char>>, style: ParserStyle)
    ensures
        spec_pick::<S>(raws, style) is NotFound ==> spec_pick_option::<S>(raws, style)
            == PickerArgResult::<Option<S>>::Parsed(None),
        spec_pick::<S>(raws, style) is Unparsed ==> spec_pick_option::<S>(raws, style) is Unparsed,
        spec_pick::<S>(raws, style) matches PickerArgResult::Parsed(v) ==> spec_pick_option::<S>(
            raws,
            style,
        ) == PickerArgResult::Parsed(Some(v)),
        !(spec_pick_option::<S>(raws, style) is NotFound),
        S::spec_pick_single(None) is NotFound ==> spec_pick_option::<S>(Seq::empty(), style)
            == PickerArgResult::<Option<S>>::Parsed(None),
{
}

/// For the argument being read, an optional value with no value where one would be (the
/// argument not given, or named and left without a value) is `None`; a value that is there
/// is read as the type inside reads it, a value read being `Some` of it.
pub proof fn law_option_with_reads_absence_as_none<S: SinglePickable>(
    raws: Seq<Seq<char>>,
    positional: bool,
    style: ParserStyle,
)
    ensures
        spec_seek_single_with(raws, positional, style) is None ==> spec_pick_option_with::<S>(
            raws,
            positional,
            style,
        ) == PickerArgResult::<Option<S>>::Parsed(None),
        spec_pick_option_with::<S>(Seq::empty(), positional, style) == PickerArgResult::<
            Option<S>,
        >::Parsed(None),
        spec_seek_single_with(raws, positional, style) is Some ==> match spec_pick_with::<S>(
            raws,
            positional,
            style,
        ) {
            PickerArgResult::Parsed(v) => spec_pick_option_with::<S>(raws, positional, style)
                == PickerArgResult::Parsed(Some(v)),
            PickerArgResult::Unparsed => spec_pick_option_with::<S>(raws, positional, style) is Unparsed,
            PickerArgResult::NotFound => spec_pick_option_with::<S>(raws, positional, style) is NotFound,
        },
{
}

/// An optional `bool` or `char` whose argument is not on the command line reads as `None`.
pub proof fn law_absent_optional_is_none(style: ParserStyle)
    ensures
        spec_pick_option::<bool>(Seq::empty(), style) == PickerArgResult::<Option<bool>>::Parsed(
            None,
        ),
        spec_pick_option::<char>(Seq::empty(), style) == PickerArgResult::<Option<char>>::Parsed(
            None,
        ),
        spec_pick::<bool>(Seq::empty(), style) is NotFound,
        spec_pick::<char>(Seq::empty(), style) is NotFound,
{
}

/// A `bool` value is `true` or `false` written in any ASCII case: `TRUE`, `True` and `true`
/// all read as `true`, and likewise for `false`; no value reads as not found.
pub proof fn law_bool_reads_any_case(w: Seq<char>)
    ensures
        eq_ascii_ci(w, true_text()) ==> <bool as SinglePickable>::spec_pick_single(Some(w))
            == PickerArgResult::Parsed(true),
        eq_ascii_ci(w, false_text()) ==> <bool as SinglePickable>::spec_pick_single(Some(w))
            == PickerArgResult::Parsed(false),
        <bool as SinglePickable>::spec_pick_single(None) is NotFound,
{
    if eq_ascii_ci(w, true_text()) || eq_ascii_ci(w, false_text()) {
        assert(ascii_folded(w[0]) == ascii_folded(true_text()[0]) || ascii_folded(w[0])
            == ascii_folded(false_text()[0]));
        assert(!crate::text::unicode_white_space(w.first()));
        assert(crate::text::trim_front(w) == w);
        let n = w.len() - 1;
        assert(ascii_folded(w[n]) == ascii_folded(true_text()[n]) || ascii_folded(w[n])
            == ascii_folded(false_text()[n]));
        assert(!crate::text::unicode_white_space(w.last()));
        assert(crate::text::trim_back(w) == w);
        assert(trimmed(w) == w);
    }
}

} // verus!
