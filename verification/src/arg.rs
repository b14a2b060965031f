//! What the matchers and readers are told about an argument and the words of a command line.

use vstd::prelude::*;
use crate::style::ParserStyle;

verus! {

/// What the parser knows of one argument: its short name, its long name, the other long
/// names it answers to, and whether it is positional.
#[derive(Clone, Debug)]
pub struct PickerArgInfo {
    /// Short name, written after the short prefix (`n` in `-n`).
    pub short: Option<char>,
    /// Long name, written after the long prefix in the style's naming convention.
    pub long: Option<String>,
    /// Further long names the argument answers to.
    pub alias: Option<Vec<String>>,
    /// Whether the argument is read from the positional words.
    pub positional: bool,
}

impl PickerArgInfo {
    /// The argument whose long names are `full` (the first is the primary one, the others its
    /// aliases) and whose short name is `short`.
    pub fn from_names(full: &[&str], short: Option<char>, positional: bool) -> (r: PickerArgInfo)
        ensures
            r.short == short,
            r.positional == positional,
            full@.len() == 0 ==> r.long is None,
            full@.len() > 0 ==> (r.long matches Some(l) && l@ == full@[0]@),
            full@.len() <= 1 ==> r.alias is None,
            full@.len() > 1 ==> (r.alias matches Some(a) && a@.len() == full@.len() - 1 && (
            forall|i: int| 0 <= i < a@.len() ==> #[trigger] a@[i]@ == full@[i + 1]@)),
    {
        if full.len() == 0 {
            return PickerArgInfo { short, long: None, alias: None, positional };
        }
        let long = String::from_str(full[0]);
        if full.len() == 1 {
            return PickerArgInfo { short, long: Some(long), alias: None, positional };
        }
        let mut alias: Vec<String> = Vec::new();
        let mut i: usize = 1;
        while i < full.len()
            invariant
                1 <= i <= full@.len(),
                alias@.len() == i - 1,
                forall|k: int| 0 <= k < alias@.len() ==> #[trigger] alias@[k]@ == full@[k + 1]@,
            decreases full@.len() - i,
        {
            alias.push(String::from_str(full[i]));
            i = i + 1;
        }
        PickerArgInfo { short, long: Some(long), alias: Some(alias), positional }
    }
}

/// A word of the command line that is still free to be matched, with its index in the
/// command line.
#[derive(Clone, Debug)]
pub struct MaskedArg {
    /// The word as it was written.
    pub raw: String,
    /// Its index in the command line.
    pub raw_idx: usize,
}

/// What reading an argument's words gives.
#[derive(Clone, Debug, PartialEq, Eq)]
pub enum PickerArgResult<T> {
    /// The words were read as this value.
    Parsed(T),
    /// The words were there and could not be read.
    Unparsed,
    /// There was nothing to read a value from.
    NotFound,
}

impl<T> PickerArgResult<T> {
    /// Whether no value was read.
    pub fn is_err(&self) -> (r: bool)
        ensures
            r == !(self is Parsed),
    {
        match self {
            PickerArgResult::Parsed(_) => false,
            _ => true,
        }
    }

    /// The value that was read.
    pub fn unwrap(self) -> (r: T)
        requires
            self is Parsed,
        ensures
            self == PickerArgResult::Parsed(r),
    {
        match self {
            PickerArgResult::Parsed(v) => v,
            _ => { proof { assert(false); } unreached() },
        }
    }
}

/// What the tag phase is given to claim an argument's words: the argument, the words of the
/// command line, which words are already claimed (a non-zero mark; a word beyond the marks
/// is free), and the style in force.
pub struct TagPhaseContext<'a> {
    /// The argument whose words are sought.
    pub arg_info: &'a PickerArgInfo,
    /// The words of the command line.
    pub args: &'a [&'a str],
    /// Non-zero where a word is already claimed by another argument.
    pub mask: &'a [u8],
    /// The style in force.
    pub style: &'a ParserStyle,
}

/// The characters of each word.
pub open spec fn words(args: Seq<&str>) -> Seq<Seq<char>> {
    args.map_values(|w: &str| w@)
}

/// Whether the word at `i` is free: not claimed by another argument.
pub open spec fn is_free(mask: Seq<u8>, i: int) -> bool {
    i >= mask.len() || mask[i] == 0
}

} // verus!
