//! Parser styles: how flags are written, how a value is attached to a flag, and how
//! names are cased.

use vstd::prelude::*;
use crate::text::{concat, concat_char};

verus! {

/// The naming convention a style writes long flag names in.
#[derive(Clone, Copy, Debug, PartialEq, Eq, Structural)]
pub enum ParserStyleNamingCase {
    /// `brewCoffee`
    CamelCase,
    /// `BrewCoffee`
    PascalCase,
    /// `brew_coffee`
    SnakeCase,
    /// `brew-coffee`
    KebabCase,
    /// `brew.coffee`
    DotCase,
}

/// What `CaseFormatter::to_camel_case` of `just_fmt` gives for a text.
pub uninterp spec fn camel_cased(s: Seq<char>) -> Seq<char>;

/// What `CaseFormatter::to_pascal_case` of `just_fmt` gives for a text.
pub uninterp spec fn pascal_cased(s: Seq<char>) -> Seq<char>;

/// What `CaseFormatter::to_snake_case` of `just_fmt` gives for a text.
pub uninterp spec fn snake_cased(s: Seq<char>) -> Seq<char>;

/// What `CaseFormatter::to_kebab_case` of `just_fmt` gives for a text.
pub uninterp spec fn kebab_cased(s: Seq<char>) -> Seq<char>;

/// What `CaseFormatter::to_dot_case` of `just_fmt` gives for a text.
pub uninterp spec fn dot_cased(s: Seq<char>) -> Seq<char>;

/// Calls `just_fmt::CaseFormatter::from(s).to_camel_case()`; claims only that the result is
/// a fixed function of the characters of `s`, named `camel_cased`.
#[verifier::external_body]
fn camel_case(s: &str) -> (r: String)
    ensures
        r@ == camel_cased(s@),
{
    just_fmt::CaseFormatter::from(s).to_camel_case()
}

/// Calls `just_fmt::CaseFormatter::from(s).to_pascal_case()`; claims only that the result is
/// a fixed function of the characters of `s`, named `pascal_cased`.
#[verifier::external_body]
pub(crate) fn pascal_case(s: &str) -> (r: String)
    ensures
        r@ == pascal_cased(s@),
{
    just_fmt::CaseFormatter::from(s).to_pascal_case()
}

/// Calls `just_fmt::CaseFormatter::from(s).to_snake_case()`; claims only that the result is
/// a fixed function of the characters of `s`, named `snake_cased`.
#[verifier::external_body]
fn snake_case(s: &str) -> (r: String)
    ensures
        r@ == snake_cased(s@),
{
    just_fmt::CaseFormatter::from(s).to_snake_case()
}

/// Calls `just_fmt::CaseFormatter::from(s).to_kebab_case()`; claims only that the result is
/// a fixed function of the characters of `s`, named `kebab_cased`.
#[verifier::external_body]
fn kebab_case(s: &str) -> (r: String)
    ensures
        r@ == kebab_cased(s@),
{
    just_fmt::CaseFormatter::from(s).to_kebab_case()
}

/// Calls `just_fmt::CaseFormatter::from(s).to_dot_case()`; claims only that the result is
/// a fixed function of the characters of `s`, named `dot_cased`.
#[verifier::external_body]
fn dot_case(s: &str) -> (r: String)
    ensures
        r@ == dot_cased(s@),
{
    just_fmt::CaseFormatter::from(s).to_dot_case()
}

/// `name` written in the naming convention `case`.
pub open spec fn spec_convert(case: ParserStyleNamingCase, name: Seq<char>) -> Seq<char> {
    match case {
        ParserStyleNamingCase::CamelCase => camel_cased(name),
        ParserStyleNamingCase::PascalCase => pascal_cased(name),
        ParserStyleNamingCase::SnakeCase => snake_cased(name),
        ParserStyleNamingCase::KebabCase => kebab_cased(name),
        ParserStyleNamingCase::DotCase => dot_cased(name),
    }
}

impl ParserStyleNamingCase {
    /// Writes `name` in this naming convention.
    pub fn convert(&self, name: &str) -> (r: String)
        ensures
            r@ == spec_convert(*self, name@),
    {
        match self {
            ParserStyleNamingCase::CamelCase => camel_case(name),
            ParserStyleNamingCase::PascalCase => pascal_case(name),
            ParserStyleNamingCase::SnakeCase => snake_case(name),
            ParserStyleNamingCase::KebabCase => kebab_case(name),
            ParserStyleNamingCase::DotCase => dot_case(name),
        }
    }
}

/// How a command line is written: the prefixes of long and short flags, the character that
/// attaches a value to its flag, the end-of-options marker, whether words are compared with
/// regard to case, and the naming convention of long flag names.
#[derive(Clone, Copy, Debug)]
pub struct ParserStyle {
    /// Prefix of a long flag, such as `--` in `--name`.
    pub long_prefix: &'static str,
    /// Prefix of a short flag, such as `-` in `-n`.
    pub short_prefix: &'static str,
    /// Character that attaches a value to its flag, such as `=` in `--name=Bob`.
    pub value_separator: char,
    /// The word after which every word is positional.
    pub end_of_options: &'static str,
    /// Whether flags and the end-of-options marker are compared with regard to case.
    pub case_sensitive: bool,
    /// Naming convention of long flag names.
    pub naming_case: ParserStyleNamingCase,
}

impl ParserStyle {
    /// `-f` or `--flag`, values after a space or `=`, positional words after `--`, case
    /// sensitive, kebab-case names.
    pub fn unix() -> (s: ParserStyle)
        ensures
            s.long_prefix@ == seq!['-', '-'],
            s.short_prefix@ == seq!['-'],
            s.value_separator == '=',
            s.end_of_options@ == seq!['-', '-'],
            s.case_sensitive,
            s.naming_case == ParserStyleNamingCase::KebabCase,
    {
        proof {
            reveal_strlit("--");
            reveal_strlit("-");
        }
        ParserStyle {
            long_prefix: "--",
            short_prefix: "-",
            value_separator: '=',
            end_of_options: "--",
            case_sensitive: true,
            naming_case: ParserStyleNamingCase::KebabCase,
        }
    }

    /// `-F` or `-Flag`, values after a space or `:`, positional words after `--`, case
    /// insensitive, PascalCase names.
    pub fn powershell() -> (s: ParserStyle)
        ensures
            s.long_prefix@ == seq!['-'],
            s.short_prefix@ == seq!['-'],
            s.value_separator == ':',
            s.end_of_options@ == seq!['-', '-'],
            !s.case_sensitive,
            s.naming_case == ParserStyleNamingCase::PascalCase,
    {
        proof {
            reveal_strlit("--");
            reveal_strlit("-");
        }
        ParserStyle {
            long_prefix: "-",
            short_prefix: "-",
            value_separator: ':',
            end_of_options: "--",
            case_sensitive: false,
            naming_case: ParserStyleNamingCase::PascalCase,
        }
    }

    /// `/F` or `/Flag`, values after a space or `:`, positional words after `--`, case
    /// insensitive, PascalCase names.
    pub fn windows() -> (s: ParserStyle)
        ensures
            s.long_prefix@ == seq!['/'],
            s.short_prefix@ == seq!['/'],
            s.value_separator == ':',
            s.end_of_options@ == seq!['-', '-'],
            !s.case_sensitive,
            s.naming_case == ParserStyleNamingCase::PascalCase,
    {
        proof {
            reveal_strlit("--");
            reveal_strlit("/");
        }
        ParserStyle {
            long_prefix: "/",
            short_prefix: "/",
            value_separator: ':',
            end_of_options: "--",
            case_sensitive: false,
            naming_case: ParserStyleNamingCase::PascalCase,
        }
    }

    /// The flag that writes the short name `short`.
    pub open spec fn spec_short_flag(self, short: char) -> Seq<char> {
        self.short_prefix@.push(short)
    }

    /// The flag that writes the (already converted) long name `name`.
    pub open spec fn spec_long_flag(self, name: Seq<char>) -> Seq<char> {
        self.long_prefix@ + name
    }

    /// The flag that writes the short name `short`, such as `-n`.
    pub fn short_flag_string(&self, short: char) -> (r: String)
        ensures
            r@ == self.spec_short_flag(short),
    {
        concat_char(self.short_prefix, short)
    }

    /// The flag that writes the long name `name` as it stands, such as `--name`.
    pub fn long_flag_string(&self, name: &str) -> (r: String)
        ensures
            r@ == self.spec_long_flag(name@),
    {
        concat(self.long_prefix, name)
    }
}

} // verus!
