//! The grammar of a field's `#[arg(..)]` attribute, read from the attribute's tokens.
//!
//! The attribute holds options separated by commas, a trailing comma allowed: `short`,
//! `short = 'c'`, `long`, `long = "name"` and `aliases = ["a", "b"]`, the list of aliases
//! being string literals separated by commas, a trailing comma allowed. Another key is
//! refused as unknown; a key with a missing or wrong part, or options not separated by a
//! comma, is refused as malformed.

use vstd::prelude::*;
use crate::derive::{
    merge_arg_items, spec_last_aliases, spec_last_long, spec_last_short, FieldArgItem,
    FieldArgOptions, LongArg, ShortArg,
};
use crate::parselib::utils::texts;
use crate::text::str_eq;

verus! {

/// One token of an attribute's arguments, with the brackets of a group written as tokens of
/// their own.
#[derive(Clone, Debug)]
pub enum ArgToken {
    /// A word, such as `short`.
    Ident(String),
    /// `=`
    Eq,
    /// `,`
    Comma,
    /// A character literal, such as `'c'`, by its value.
    CharLit(char),
    /// A string literal, such as `"name"`, by its value.
    StrLit(String),
    /// `[`
    LBracket,
    /// `]`
    RBracket,
    /// Any other token.
    Other,
}

/// Why an attribute is refused.
#[derive(Clone, Copy, Debug, PartialEq, Eq, Structural)]
pub enum ArgAttrError {
    /// A key other than `short`, `long` and `aliases`.
    UnknownKey,
    /// A key with a missing or wrong part, or options not separated by a comma.
    Malformed,
}

/// What an option says, with its texts as characters.
pub enum ArgItemView {
    /// `short` (`None`) or `short = 'c'` (`Some(c)`).
    Short(Option<char>),
    /// `long` (`None`) or `long = "name"` (`Some(name)`).
    Long(Option<Seq<char>>),
    /// `aliases = [..]`.
    Aliases(Seq<Seq<char>>),
}

impl View for FieldArgItem {
    type V = ArgItemView;

    open spec fn view(&self) -> ArgItemView {
        match *self {
            FieldArgItem::Short(ShortArg::Implicit) => ArgItemView::Short(None),
            FieldArgItem::Short(ShortArg::Explicit(c)) => ArgItemView::Short(Some(c)),
            FieldArgItem::Long(LongArg::Implicit) => ArgItemView::Long(None),
            FieldArgItem::Long(LongArg::Explicit(s)) => ArgItemView::Long(Some(s@)),
            FieldArgItem::Aliases(v) => ArgItemView::Aliases(texts(v@)),
        }
    }
}

/// What each of the options says.
pub open spec fn item_views(v: Seq<FieldArgItem>) -> Seq<ArgItemView> {
    v.map_values(|it: FieldArgItem| it@)
}

/// The string literals of a list from the token at `j` up to its closing bracket, and the
/// position after that bracket.
pub open spec fn spec_str_list(toks: Seq<ArgToken>, j: int) -> Result<(Seq<Seq<char>>, int), ArgAttrError>
    decreases toks.len() - j,
{
    if j < 0 || j >= toks.len() {
        Err(ArgAttrError::Malformed)
    } else {
        match toks[j] {
            ArgToken::RBracket => Ok((Seq::empty(), j + 1)),
            ArgToken::StrLit(s) => {
                if j + 1 >= toks.len() {
                    Err(ArgAttrError::Malformed)
                } else {
                    match toks[j + 1] {
                        ArgToken::RBracket => Ok((seq![s@], j + 2)),
                        ArgToken::Comma => match spec_str_list(toks, j + 2) {
                            Ok((rest, e)) => Ok((seq![s@] + rest, e)),
                            Err(x) => Err(x),
                        },
                        _ => Err(ArgAttrError::Malformed),
                    }
                }
            },
            _ => Err(ArgAttrError::Malformed),
        }
    }
}

/// The option written from the token at `i`, and the position after it.
pub open spec fn spec_item(toks: Seq<ArgToken>, i: int) -> Result<(ArgItemView, int), ArgAttrError> {
    if i < 0 || i >= toks.len() {
        Err(ArgAttrError::Malformed)
    } else {
        match toks[i] {
            ArgToken::Ident(k) => {
                let eq_next = i + 1 < toks.len() && toks[i + 1] is Eq;
                if k@ == "short"@ {
                    if !eq_next {
                        Ok((ArgItemView::Short(None), i + 1))
                    } else if i + 2 < toks.len() && toks[i + 2] is CharLit {
                        Ok((ArgItemView::Short(Some(toks[i + 2]->CharLit_0)), i + 3))
                    } else {
                        Err(ArgAttrError::Malformed)
                    }
                } else if k@ == "long"@ {
                    if !eq_next {
                        Ok((ArgItemView::Long(None), i + 1))
                    } else if i + 2 < toks.len() && toks[i + 2] is StrLit {
                        Ok((ArgItemView::Long(Some(toks[i + 2]->StrLit_0@)), i + 3))
                    } else {
                        Err(ArgAttrError::Malformed)
                    }
                } else if k@ == "aliases"@ {
                    if eq_next && i + 2 < toks.len() && toks[i + 2] is LBracket {
                        match spec_str_list(toks, i + 3) {
                            Ok((names, e)) => Ok((ArgItemView::Aliases(names), e)),
                            Err(x) => Err(x),
                        }
                    } else {
                        Err(ArgAttrError::Malformed)
                    }
                } else {
                    Err(ArgAttrError::UnknownKey)
                }
            },
            _ => Err(ArgAttrError::Malformed),
        }
    }
}

/// A list read from `j` ends after `j`, within the tokens.
pub proof fn lemma_str_list_advances(toks: Seq<ArgToken>, j: int)
    ensures
        spec_str_list(toks, j) matches Ok((_, e)) ==> j < e <= toks.len(),
    decreases toks.len() - j,
{
    if 0 <= j && j + 2 <= toks.len() {
        lemma_str_list_advances(toks, j + 2);
    }
}

/// An option read from `i` ends after `i`, within the tokens.
pub proof fn lemma_item_advances(toks: Seq<ArgToken>, i: int)
    ensures
        spec_item(toks, i) matches Ok((_, j)) ==> i < j <= toks.len(),
{
    lemma_str_list_advances(toks, i + 3);
}

/// The options written from the token at `i` to the end.
pub open spec fn spec_items_from(toks: Seq<ArgToken>, i: int) -> Result<Seq<ArgItemView>, ArgAttrError>
    decreases toks.len() - i,
{
    if i < 0 || i >= toks.len() {
        Ok(Seq::empty())
    } else {
        match spec_item(toks, i) {
            Err(e) => Err(e),
            Ok((it, j)) => {
                proof {
                    lemma_item_advances(toks, i);
                }
                if j >= toks.len() {
                    Ok(seq![it])
                } else if toks[j] is Comma {
                    match spec_items_from(toks, j + 1) {
                        Ok(rest) => Ok(seq![it] + rest),
                        Err(e) => Err(e),
                    }
                } else {
                    Err(ArgAttrError::Malformed)
                }
            },
        }
    }
}

/// The options an attribute's tokens write, in order.
pub open spec fn spec_arg_items(toks: Seq<ArgToken>) -> Result<Seq<ArgItemView>, ArgAttrError> {
    spec_items_from(toks, 0)
}

/// Reads the string literals of a list from the token at `j` up to its closing bracket.
fn parse_str_list(toks: &[ArgToken], j: usize) -> (r: Result<(Vec<String>, usize), ArgAttrError>)
    ensures
        match spec_str_list(toks@, j as int) {
            Ok((names, e)) => r is Ok && texts(r->Ok_0.0@) == names && r->Ok_0.1 == e,
            Err(x) => r is Err && r->Err_0 == x,
        },
    decreases toks@.len() - j,
{
    if j >= toks.len() {
        return Err(ArgAttrError::Malformed);
    }
    match &toks[j] {
        ArgToken::RBracket => {
            let v: Vec<String> = Vec::new();
            assert(texts(v@) =~= Seq::<Seq<char>>::empty());
            Ok((v, j + 1))
        },
        ArgToken::StrLit(s) => {
            if j + 1 >= toks.len() {
                return Err(ArgAttrError::Malformed);
            }
            match &toks[j + 1] {
                ArgToken::RBracket => {
                    let mut v: Vec<String> = Vec::new();
                    v.push(s.clone());
                    assert(texts(v@) =~= seq![s@]);
                    Ok((v, j + 2))
                },
                ArgToken::Comma => {
                    match parse_str_list(toks, j + 2) {
                        Ok((rest, e)) => {
                            let mut v: Vec<String> = Vec::new();
                            v.push(s.clone());
                            let mut rest = rest;
                            let ghost rv = rest@;
                            v.append(&mut rest);
                            assert(texts(v@) =~= seq![s@] + texts(rv));
                            Ok((v, e))
                        },
                        Err(x) => Err(x),
                    }
                },
                _ => Err(ArgAttrError::Malformed),
            }
        },
        _ => Err(ArgAttrError::Malformed),
    }
}

/// Reads the option written from the token at `i`.
fn parse_item(toks: &[ArgToken], i: usize) -> (r: Result<(FieldArgItem, usize), ArgAttrError>)
    ensures
        match spec_item(toks@, i as int) {
            Ok((v, j)) => r is Ok && r->Ok_0.0@ == v && r->Ok_0.1 == j,
            Err(x) => r is Err && r->Err_0 == x,
        },
{
    if i >= toks.len() {
        return Err(ArgAttrError::Malformed);
    }
    match &toks[i] {
        ArgToken::Ident(k) => {
            let eq_next = i + 1 < toks.len() && matches!(toks[i + 1], ArgToken::Eq);
            if str_eq(k.as_str(), "short") {
                if !eq_next {
                    Ok((FieldArgItem::Short(ShortArg::Implicit), i + 1))
                } else if i + 2 < toks.len() {
                    match &toks[i + 2] {
                        ArgToken::CharLit(c) => Ok((FieldArgItem::Short(ShortArg::Explicit(*c)), i + 3)),
                        _ => Err(ArgAttrError::Malformed),
                    }
                } else {
                    Err(ArgAttrError::Malformed)
                }
            } else if str_eq(k.as_str(), "long") {
                if !eq_next {
                    Ok((FieldArgItem::Long(LongArg::Implicit), i + 1))
                } else if i + 2 < toks.len() {
                    match &toks[i + 2] {
                        ArgToken::StrLit(s) => Ok((FieldArgItem::Long(LongArg::Explicit(s.clone())), i + 3)),
                        _ => Err(ArgAttrError::Malformed),
                    }
                } else {
                    Err(ArgAttrError::Malformed)
                }
            } else if str_eq(k.as_str(), "aliases") {
                if eq_next && i + 2 < toks.len() && matches!(toks[i + 2], ArgToken::LBracket) {
                    match parse_str_list(toks, i + 3) {
                        Ok((names, e)) => Ok((FieldArgItem::Aliases(names), e)),
                        Err(x) => Err(x),
                    }
                } else {
                    Err(ArgAttrError::Malformed)
                }
            } else {
                Err(ArgAttrError::UnknownKey)
            }
        },
        _ => Err(ArgAttrError::Malformed),
    }
}

/// Reads the options written from the token at `i` to the end.
fn parse_items_from(toks: &[ArgToken], i: usize) -> (r: Result<Vec<FieldArgItem>, ArgAttrError>)
    ensures
        match spec_items_from(toks@, i as int) {
            Ok(items) => r is Ok && item_views(r->Ok_0@) == items,
            Err(x) => r is Err && r->Err_0 == x,
        },
    decreases toks@.len() - i,
{
    if i >= toks.len() {
        let v: Vec<FieldArgItem> = Vec::new();
        assert(item_views(v@) =~= Seq::<ArgItemView>::empty());
        return Ok(v);
    }
    proof {
        lemma_item_advances(toks@, i as int);
    }
    match parse_item(toks, i) {
        Err(x) => Err(x),
        Ok((item, j)) => {
            if j >= toks.len() {
                let mut v: Vec<FieldArgItem> = Vec::new();
                let ghost it = item;
                v.push(item);
                assert(item_views(v@) =~= seq![it@]);
                Ok(v)
            } else if matches!(toks[j], ArgToken::Comma) {
                match parse_items_from(toks, j + 1) {
                    Ok(rest) => {
                        let mut v: Vec<FieldArgItem> = Vec::new();
                        let ghost it = item;
                        v.push(item);
                        let mut rest = rest;
                        let ghost rv = rest@;
                        v.append(&mut rest);
                        assert(item_views(v@) =~= seq![it@] + item_views(rv));
                        Ok(v)
                    },
                    Err(x) => Err(x),
                }
            } else {
                Err(ArgAttrError::Malformed)
            }
        },
    }
}

/// Reads the options of a field's `#[arg(..)]` attribute from its tokens: options separated
/// by commas, a trailing comma allowed, each `short`, `short = 'c'`, `long`, `long = "name"`
/// or `aliases = [..]`; another key is refused as unknown, and a key with a missing or wrong
/// part, or options not separated by a comma, as malformed.
pub fn parse_arg_items(toks: &[ArgToken]) -> (r: Result<Vec<FieldArgItem>, ArgAttrError>)
    ensures
        match spec_arg_items(toks@) {
            Ok(items) => r is Ok && item_views(r->Ok_0@) == items,
            Err(x) => r is Err && r->Err_0 == x,
        },
{
    parse_items_from(toks, 0)
}

/// The short name asked for, by what it says: `None` when none is asked for, `Some(None)`
/// for `short`, `Some(Some(c))` for `short = 'c'`.
pub open spec fn short_view(o: Option<ShortArg>) -> Option<Option<char>> {
    match o {
        None => None,
        Some(ShortArg::Implicit) => Some(None),
        Some(ShortArg::Explicit(c)) => Some(Some(c)),
    }
}

/// The long name asked for, by what it says.
pub open spec fn long_view(o: Option<LongArg>) -> Option<Option<Seq<char>>> {
    match o {
        None => None,
        Some(LongArg::Implicit) => Some(None),
        Some(LongArg::Explicit(s)) => Some(Some(s@)),
    }
}

/// The short name the options `vs` ask for: the one written last.
pub open spec fn last_short_view(vs: Seq<ArgItemView>) -> Option<Option<char>>
    decreases vs.len(),
{
    if vs.len() == 0 {
        None
    } else {
        match vs.last() {
            ArgItemView::Short(s) => Some(s),
            _ => last_short_view(vs.drop_last()),
        }
    }
}

/// The long name the options `vs` ask for: the one written last.
pub open spec fn last_long_view(vs: Seq<ArgItemView>) -> Option<Option<Seq<char>>>
    decreases vs.len(),
{
    if vs.len() == 0 {
        None
    } else {
        match vs.last() {
            ArgItemView::Long(l) => Some(l),
            _ => last_long_view(vs.drop_last()),
        }
    }
}

/// The aliases the options `vs` ask for: the list written last, or none.
pub open spec fn last_aliases_view(vs: Seq<ArgItemView>) -> Seq<Seq<char>>
    decreases vs.len(),
{
    if vs.len() == 0 {
        Seq::empty()
    } else {
        match vs.last() {
            ArgItemView::Aliases(a) => a,
            _ => last_aliases_view(vs.drop_last()),
        }
    }
}

proof fn lemma_last_views(items: Seq<FieldArgItem>)
    ensures
        short_view(spec_last_short(items)) == last_short_view(item_views(items)),
        long_view(spec_last_long(items)) == last_long_view(item_views(items)),
        spec_last_aliases(items) matches Some(a) ==> texts(a@) == last_aliases_view(item_views(items)),
        spec_last_aliases(items) is None ==> last_aliases_view(item_views(items)).len() == 0,
    decreases items.len(),
{
    if items.len() > 0 {
        lemma_last_views(items.drop_last());
        assert(item_views(items).drop_last() =~= item_views(items.drop_last()));
        assert(item_views(items).last() == items.last()@);
    }
}

/// Reads a field's `#[arg(..)]` attribute from its tokens into the options it asks for: the
/// options are read as `parse_arg_items` reads them, and where one is written more than once,
/// the last one stands.
pub fn parse_arg_attr(toks: &[ArgToken]) -> (r: Result<FieldArgOptions, ArgAttrError>)
    ensures
        match spec_arg_items(toks@) {
            Ok(vs) => {
                &&& r is Ok
                &&& short_view(r->Ok_0.short) == last_short_view(vs)
                &&& long_view(r->Ok_0.long) == last_long_view(vs)
                &&& texts(r->Ok_0.aliases@) == last_aliases_view(vs)
            },
            Err(x) => r is Err && r->Err_0 == x,
        },
{
    match parse_arg_items(toks) {
        Ok(items) => {
            let ghost all = items@;
            proof {
                lemma_last_views(all);
            }
            let options = merge_arg_items(items);
            assert(options.aliases@.len() == 0 ==> texts(options.aliases@) =~= Seq::<Seq<char>>::empty());
            Ok(options)
        },
        Err(x) => Err(x),
    }
}

} // verus!
