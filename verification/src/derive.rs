//! What the `Pickable` derive decides: which structs and enums it accepts, the options of a
//! field's `#[arg(..)]` attribute, the argument each field of a struct becomes, the words the
//! fields of a struct claim together, and which variant of a unit enum a word names.

use vstd::prelude::*;
use crate::arg::{is_free, words, PickerArgInfo, PickerArgResult, TagPhaseContext};
use crate::parselib::matcher::{spec_single_tag, SingleMatcher};
use crate::parselib::utils::texts;
use crate::style::{pascal_case, pascal_cased, ParserStyle};
use crate::text::str_eq;
use vstd::string::StrSliceExecFns;

verus! {

/// The short name a field asks for.
#[derive(Clone, Debug)]
pub enum ShortArg {
    /// `short`: the first character of the field's name.
    Implicit,
    /// `short = 'c'`
    Explicit(char),
}

/// The long name a field asks for.
#[derive(Clone, Debug)]
pub enum LongArg {
    /// `long`: the field's name.
    Implicit,
    /// `long = "name"`
    Explicit(String),
}

/// The options of a field's `#[arg(..)]` attribute.
#[derive(Clone, Debug)]
pub struct FieldArgOptions {
    /// `short` or `short = 'c'`.
    pub short: Option<ShortArg>,
    /// `long` or `long = "name"`.
    pub long: Option<LongArg>,
    /// `aliases = ["a", "b"]`.
    pub aliases: Vec<String>,
}

/// One option written in a field's `#[arg(..)]` attribute.
#[derive(Clone, Debug)]
pub enum FieldArgItem {
    /// `short` or `short = 'c'`.
    Short(ShortArg),
    /// `long` or `long = "name"`.
    Long(LongArg),
    /// `aliases = ["a", "b"]`.
    Aliases(Vec<String>),
}

/// The short name the options `items` ask for: the one written last.
pub open spec fn spec_last_short(items: Seq<FieldArgItem>) -> Option<ShortArg>
    decreases items.len(),
{
    if items.len() == 0 {
        None
    } else {
        match items.last() {
            FieldArgItem::Short(s) => Some(s),
            _ => spec_last_short(items.drop_last()),
        }
    }
}

/// The long name the options `items` ask for: the one written last.
pub open spec fn spec_last_long(items: Seq<FieldArgItem>) -> Option<LongArg>
    decreases items.len(),
{
    if items.len() == 0 {
        None
    } else {
        match items.last() {
            FieldArgItem::Long(l) => Some(l),
            _ => spec_last_long(items.drop_last()),
        }
    }
}

/// The aliases the options `items` ask for: the list written last.
pub open spec fn spec_last_aliases(items: Seq<FieldArgItem>) -> Option<Vec<String>>
    decreases items.len(),
{
    if items.len() == 0 {
        None
    } else {
        match items.last() {
            FieldArgItem::Aliases(a) => Some(a),
            _ => spec_last_aliases(items.drop_last()),
        }
    }
}

/// The options of a field's `#[arg(..)]` attribute, from the options written in it: where an
/// option is written more than once, the last one stands; an option never written is absent,
/// and no aliases written is the empty list.
pub fn merge_arg_items(items: Vec<FieldArgItem>) -> (r: FieldArgOptions)
    ensures
        r.short == spec_last_short(items@),
        r.long == spec_last_long(items@),
        spec_last_aliases(items@) matches Some(a) ==> r.aliases == a,
        spec_last_aliases(items@) is None ==> r.aliases@.len() == 0,
{
    let ghost all = items@;
    let mut items = items;
    let mut short: Option<ShortArg> = None;
    let mut long: Option<LongArg> = None;
    let mut aliases: Option<Vec<String>> = None;
    while items.len() > 0
        invariant
            spec_last_short(all) == (if short is Some { short } else { spec_last_short(items@) }),
            spec_last_long(all) == (if long is Some { long } else { spec_last_long(items@) }),
            spec_last_aliases(all) == (if aliases is Some { aliases } else { spec_last_aliases(items@) }),
        decreases items@.len(),
    {
        let ghost before = items@;
        let item = items.pop().unwrap();
        assert(items@ =~= before.drop_last());
        match item {
            FieldArgItem::Short(x) => {
                if short.is_none() {
                    short = Some(x);
                }
            },
            FieldArgItem::Long(x) => {
                if long.is_none() {
                    long = Some(x);
                }
            },
            FieldArgItem::Aliases(x) => {
                if aliases.is_none() {
                    aliases = Some(x);
                }
            },
        }
    }
    let aliases = match aliases {
        Some(a) => a,
        None => Vec::new(),
    };
    FieldArgOptions { short, long, aliases }
}

/// The most fields a derived struct may have.
pub const MAX_FIELDS: usize = 32;

/// Why the derive refuses a type.
#[derive(Clone, Copy, Debug, PartialEq, Eq, Structural)]
pub enum DeriveError {
    /// A struct whose fields are not named (a tuple or unit struct).
    UnnamedFields,
    /// A struct with more than `MAX_FIELDS` fields.
    TooManyFields,
    /// A struct with no field.
    NoFields,
    /// An enum with no variant.
    NoVariants,
    /// An enum whose variant at this position carries data.
    VariantCarriesData(usize),
}

/// What the derive says of a struct: refused when its fields are not named, then when it has
/// more than `MAX_FIELDS` fields, then when it has none.
pub open spec fn spec_struct_shape(named: bool, n_fields: nat) -> Result<(), DeriveError> {
    if !named {
        Err(DeriveError::UnnamedFields)
    } else if n_fields > MAX_FIELDS {
        Err(DeriveError::TooManyFields)
    } else if n_fields == 0 {
        Err(DeriveError::NoFields)
    } else {
        Ok(())
    }
}

/// Whether the derive accepts a struct, from whether its fields are named and how many it has.
pub fn check_struct_shape(named: bool, n_fields: usize) -> (r: Result<(), DeriveError>)
    ensures
        r == spec_struct_shape(named, n_fields as nat),
{
    if !named {
        Err(DeriveError::UnnamedFields)
    } else if n_fields > MAX_FIELDS {
        Err(DeriveError::TooManyFields)
    } else if n_fields == 0 {
        Err(DeriveError::NoFields)
    } else {
        Ok(())
    }
}

/// The position of the first `false` in `unit`.
pub open spec fn first_not_unit(unit: Seq<bool>) -> Option<int>
    decreases unit.len(),
{
    if unit.len() == 0 {
        None
    } else if !unit[0] {
        Some(0)
    } else {
        match first_not_unit(unit.drop_first()) {
            Some(i) => Some(i + 1),
            None => None,
        }
    }
}

/// What the derive says of an enum whose variants are unit ones where `unit` says so: refused
/// when it has no variant, then at the first variant that carries data.
pub open spec fn spec_enum_shape(unit: Seq<bool>) -> Result<(), DeriveError> {
    if unit.len() == 0 {
        Err(DeriveError::NoVariants)
    } else {
        match first_not_unit(unit) {
            Some(i) => Err(DeriveError::VariantCarriesData(i as usize)),
            None => Ok(()),
        }
    }
}

/// Whether the derive accepts an enum, from which of its variants, in order, are unit ones.
pub fn check_enum_shape(unit: &[bool]) -> (r: Result<(), DeriveError>)
    ensures
        r == spec_enum_shape(unit@),
{
    if unit.len() == 0 {
        return Err(DeriveError::NoVariants);
    }
    let mut i: usize = 0;
    assert(unit@.skip(0) =~= unit@);
    while i < unit.len()
        invariant
            i <= unit@.len(),
            first_not_unit(unit@) == (match first_not_unit(unit@.skip(i as int)) {
                Some(k) => Some(k + i),
                None => None,
            }),
        decreases unit@.len() - i,
    {
        assert(unit@.skip(i as int).drop_first() =~= unit@.skip(i + 1));
        if !unit[i] {
            return Err(DeriveError::VariantCarriesData(i));
        }
        i = i + 1;
    }
    assert(unit@.skip(i as int) =~= Seq::<bool>::empty());
    Ok(())
}

/// The short name derived from a field's name: its first character, or `_` for an empty name.
pub open spec fn spec_derived_short(ident: Seq<char>) -> char {
    if ident.len() > 0 {
        ident[0]
    } else {
        '_'
    }
}

/// The short name derived from a field's name: its first character, or `_`.
pub fn derived_short(ident: &str) -> (c: char)
    ensures
        c == spec_derived_short(ident@),
{
    if ident.unicode_len() > 0 {
        ident.get_char(0)
    } else {
        '_'
    }
}

/// Whether a field asks for anything by its `#[arg(..)]` attribute.
pub open spec fn has_options(options: FieldArgOptions) -> bool {
    options.short is Some || options.long is Some || options.aliases@.len() > 0
}

/// The argument a field of name `ident` becomes.
///
/// A field that asks for nothing is positional. Otherwise it is named: its long name is the
/// explicit one or the field's name, its aliases are the ones listed, and its short name is
/// the explicit one, the first character of the field's name, or none.
pub open spec fn spec_field_arg(ident: Seq<char>, options: FieldArgOptions) -> (bool, Option<char>, Option<
    Seq<char>,
>, Seq<Seq<char>>) {
    if !has_options(options) {
        (true, None, None, Seq::empty())
    } else {
        let long = match options.long {
            Some(LongArg::Explicit(l)) => l@,
            _ => ident,
        };
        let short = match options.short {
            Some(ShortArg::Explicit(c)) => Some(c),
            Some(ShortArg::Implicit) => Some(spec_derived_short(ident)),
            None => None,
        };
        (false, short, Some(long), texts(options.aliases@))
    }
}

/// Whether `info` is the argument `(positional, short, long, aliases)`.
pub open spec fn info_is(info: PickerArgInfo, d: (bool, Option<char>, Option<Seq<char>>, Seq<Seq<char>>)) -> bool {
    &&& info.positional == d.0
    &&& info.short == d.1
    &&& match (info.long, d.2) {
        (Some(l), Some(m)) => l@ == m,
        (None, None) => true,
        _ => false,
    }
    &&& match info.alias {
        Some(a) => d.3.len() > 0 && texts(a@) == d.3,
        None => d.3.len() == 0,
    }
}

/// A field is positional exactly when its attribute asks for no short name, no long name and
/// no alias. Otherwise it is named: its long name is the one written or the field's own name,
/// its short name the one written, the field's first character for `short`, or none, and its
/// aliases are the ones listed, so that a field that lists an alias answers to it and to its
/// own name.
pub proof fn law_field_arg_named_by_its_options(ident: Seq<char>, options: FieldArgOptions)
    ensures
        spec_field_arg(ident, options).0 <==> (options.short is None && options.long is None
            && options.aliases@.len() == 0),
        options.aliases@.len() > 0 ==> {
            &&& !spec_field_arg(ident, options).0
            &&& spec_field_arg(ident, options).3 == texts(options.aliases@)
            &&& spec_field_arg(ident, options).2 is Some
        },
        !spec_field_arg(ident, options).0 ==> {
            &&& spec_field_arg(ident, options).3 == texts(options.aliases@)
            &&& spec_field_arg(ident, options).2 == Some(
                match options.long {
                    Some(LongArg::Explicit(l)) => l@,
                    _ => ident,
                },
            )
            &&& spec_field_arg(ident, options).1 == match options.short {
                Some(ShortArg::Explicit(c)) => Some(c),
                Some(ShortArg::Implicit) => Some(if ident.len() > 0 { ident[0] } else { '_' }),
                None => None,
            }
        },
        spec_field_arg(ident, options).0 ==> spec_field_arg(ident, options).1 is None
            && spec_field_arg(ident, options).2 is None && spec_field_arg(ident, options).3.len()
            == 0,
{
}

/// The argument a field of name `ident` with the options `options` becomes.
pub fn field_arg_info(ident: &str, options: &FieldArgOptions) -> (r: PickerArgInfo)
    ensures
        info_is(r, spec_field_arg(ident@, *options)),
{
    let asks = options.short.is_some() || options.long.is_some() || options.aliases.len() > 0;
    if !asks {
        return PickerArgInfo { short: None, long: None, alias: None, positional: true };
    }
    let long = match &options.long {
        Some(LongArg::Explicit(l)) => l.clone(),
        _ => String::from_str(ident),
    };
    let short = match &options.short {
        Some(ShortArg::Explicit(c)) => Some(*c),
        Some(ShortArg::Implicit) => Some(derived_short(ident)),
        None => None,
    };
    let alias = if options.aliases.len() > 0 {
        Some(options.aliases.clone())
    } else {
        None
    };
    PickerArgInfo { short, long: Some(long), alias, positional: false }
}

/// The index of the first name equal to `word`.
pub open spec fn spec_first_equal(word: Seq<char>, names: Seq<Seq<char>>) -> Option<int>
    decreases names.len(),
{
    if names.len() == 0 {
        None
    } else if names[0] == word {
        Some(0)
    } else {
        match spec_first_equal(word, names.drop_first()) {
            Some(i) => Some(i + 1),
            None => None,
        }
    }
}

/// The index of the first of `names` equal to `word`.
pub fn match_variant(word: &str, names: &[String]) -> (r: Option<usize>)
    ensures
        r matches Some(i) ==> spec_first_equal(word@, texts(names@)) == Some(i as int),
        r is None ==> spec_first_equal(word@, texts(names@)) is None,
{
    let ghost ns = texts(names@);
    let mut i: usize = 0;
    assert(ns.skip(0) =~= ns);
    while i < names.len()
        invariant
            i <= names@.len(),
            ns == texts(names@),
            spec_first_equal(word@, ns) == (match spec_first_equal(word@, ns.skip(i as int)) {
                Some(k) => Some(k + i),
                None => None,
            }),
        decreases names@.len() - i,
    {
        assert(ns.skip(i as int).drop_first() =~= ns.skip(i + 1));
        if str_eq(names[i].as_str(), word) {
            return Some(i);
        }
        i = i + 1;
    }
    assert(ns.skip(i as int) =~= Seq::<Seq<char>>::empty());
    None
}

/// The PascalCase form of each name.
pub open spec fn pascal_all(names: Seq<Seq<char>>) -> Seq<Seq<char>> {
    names.map_values(|n: Seq<char>| pascal_cased(n))
}

/// What reading a unit variant gives: nothing is not found; a word names the first variant
/// whose PascalCase form is the word's PascalCase form.
pub open spec fn spec_pick_variant(raw: Option<Seq<char>>, variants: Seq<Seq<char>>) -> PickerArgResult<usize> {
    match raw {
        None => PickerArgResult::NotFound,
        Some(w) => match spec_first_equal(pascal_cased(w), pascal_all(variants)) {
            Some(i) => PickerArgResult::Parsed(i as usize),
            None => PickerArgResult::NotFound,
        },
    }
}

/// Reads which of the unit variants `variants` (their names as written) a word names; the
/// word and the names are compared in PascalCase.
pub fn pick_variant(raw: Option<&str>, variants: &[&str]) -> (r: PickerArgResult<usize>)
    ensures
        r == spec_pick_variant(crate::parselib::utils::opt_text(raw), words(variants@)),
{
    match raw {
        None => PickerArgResult::NotFound,
        Some(w) => {
            let pascal = pascal_case(w);
            let mut names: Vec<String> = Vec::new();
            let mut i: usize = 0;
            while i < variants.len()
                invariant
                    i <= variants@.len(),
                    texts(names@) =~= pascal_all(words(variants@)).take(i as int),
                decreases variants@.len() - i,
            {
                let n = pascal_case(variants[i]);
                let ghost before = names@;
                names.push(n);
                assert(texts(names@) =~= texts(before).push(n@));
                i = i + 1;
            }
            assert(pascal_all(words(variants@)).take(i as int) =~= pascal_all(words(variants@)));
            match match_variant(pascal.as_str(), names.as_slice()) {
                Some(k) => PickerArgResult::Parsed(k),
                None => PickerArgResult::NotFound,
            }
        },
    }
}

/// `mask` with every word of `t` marked as claimed.
pub open spec fn marked(mask: Seq<u8>, t: Seq<usize>) -> Seq<u8> {
    Seq::new(mask.len(), |i: int| if t.contains(i as usize) { 1u8 } else { mask[i] })
}

/// What a field of a derived struct reads: a single value, as a value type, a unit enum or
/// an optional one does, with the argument it becomes; or a derived struct of its own, whose
/// fields are tagged in turn.
pub enum FieldShape {
    /// A field read from a single value of the argument `info`.
    Single(PickerArgInfo),
    /// A field that is itself a derived struct with these fields.
    Struct(Vec<FieldShape>),
}

/// The words a field claims: a single-value field claims what its matcher tags; a struct
/// field claims what its own fields claim together.
pub open spec fn spec_tag_shape(
    ws: Seq<Seq<char>>,
    mask: Seq<u8>,
    f: FieldShape,
    style: ParserStyle,
) -> Seq<usize>
    decreases f,
{
    match f {
        FieldShape::Single(info) => spec_single_tag(ws, mask, info, style),
        FieldShape::Struct(fields) => spec_tag_fields(ws, mask, fields@, style),
    }
}

/// The words the fields `fields` of a struct claim together: each field, in order, claims
/// what its own tag gives with the words claimed before it marked.
pub open spec fn spec_tag_fields(
    ws: Seq<Seq<char>>,
    mask: Seq<u8>,
    fields: Seq<FieldShape>,
    style: ParserStyle,
) -> Seq<usize>
    decreases fields,
{
    if fields.len() == 0 {
        Seq::empty()
    } else {
        let t = spec_tag_shape(ws, mask, fields[0], style);
        t + spec_tag_fields(ws, marked(mask, t), fields.subrange(1, fields.len() as int), style)
    }
}


/// Every word a field claims, and every word its own fields claim one after another, lies
/// within the mask, so that it can be marked as claimed.
pub open spec fn spec_shape_fits(
    ws: Seq<Seq<char>>,
    mask: Seq<u8>,
    f: FieldShape,
    style: ParserStyle,
) -> bool
    decreases f,
{
    match f {
        FieldShape::Single(info) => forall|k: int|
            0 <= k < spec_single_tag(ws, mask, info, style).len() ==> #[trigger] spec_single_tag(
                ws,
                mask,
                info,
                style,
            )[k] < mask.len(),
        FieldShape::Struct(fields) => spec_tags_fit(ws, mask, fields@, style),
    }
}

/// Every word the fields `fields` of a struct claim, one field after another, lies within
/// the mask.
pub open spec fn spec_tags_fit(
    ws: Seq<Seq<char>>,
    mask: Seq<u8>,
    fields: Seq<FieldShape>,
    style: ParserStyle,
) -> bool
    decreases fields,
{
    if fields.len() == 0 {
        true
    } else {
        let t = spec_tag_shape(ws, mask, fields[0], style);
        &&& spec_shape_fits(ws, mask, fields[0], style)
        &&& spec_tags_fit(ws, marked(mask, t), fields.subrange(1, fields.len() as int), style)
    }
}

/// What fits the mask is claimed within it.
proof fn lemma_shape_in_mask(ws: Seq<Seq<char>>, mask: Seq<u8>, f: FieldShape, style: ParserStyle)
    requires
        spec_shape_fits(ws, mask, f, style),
    ensures
        forall|k: int|
            0 <= k < spec_tag_shape(ws, mask, f, style).len() ==> #[trigger] spec_tag_shape(
                ws,
                mask,
                f,
                style,
            )[k] < mask.len(),
    decreases f,
{
    match f {
        FieldShape::Single(info) => {
            let t = spec_single_tag(ws, mask, info, style);
            assert(spec_tag_shape(ws, mask, f, style) == t);
            assert forall|k: int| 0 <= k < t.len() implies #[trigger] t[k] < mask.len() by {
                assert(spec_single_tag(ws, mask, info, style)[k] == t[k]);
            }
        },
        FieldShape::Struct(fields) => {
            lemma_fields_in_mask(ws, mask, fields@, style);
            assert(spec_tag_shape(ws, mask, f, style) == spec_tag_fields(ws, mask, fields@, style));
        },
    }
}

/// What fits the mask is claimed within it, for fields one after another.
proof fn lemma_fields_in_mask(
    ws: Seq<Seq<char>>,
    mask: Seq<u8>,
    fields: Seq<FieldShape>,
    style: ParserStyle,
)
    requires
        spec_tags_fit(ws, mask, fields, style),
    ensures
        forall|k: int|
            0 <= k < spec_tag_fields(ws, mask, fields, style).len() ==> #[trigger] spec_tag_fields(
                ws,
                mask,
                fields,
                style,
            )[k] < mask.len(),
    decreases fields,
{
    if fields.len() > 0 {
        let t = spec_tag_shape(ws, mask, fields[0], style);
        let rest_fields = fields.subrange(1, fields.len() as int);
        lemma_shape_in_mask(ws, mask, fields[0], style);
        lemma_fields_in_mask(ws, marked(mask, t), rest_fields, style);
        let rest = spec_tag_fields(ws, marked(mask, t), rest_fields, style);
        let r = spec_tag_fields(ws, mask, fields, style);
        assert(r == t + rest);
        assert forall|k: int| 0 <= k < r.len() implies #[trigger] r[k] < mask.len() by {
            if k >= t.len() {
                assert(r[k] == rest[k - t.len()]);
            } else {
                assert(r[k] == t[k]);
            }
        }
    }
}

/// A mask that covers every word lets a field, and every field inside it, mark what it
/// claims.
pub proof fn law_covering_mask_fits_shape(
    ws: Seq<Seq<char>>,
    mask: Seq<u8>,
    f: FieldShape,
    style: ParserStyle,
)
    requires
        ws.len() <= usize::MAX,
        mask.len() >= ws.len(),
    ensures
        spec_shape_fits(ws, mask, f, style),
    decreases f,
{
    match f {
        FieldShape::Single(info) => {
            crate::parselib::laws::law_single_tag_claims_free_words(ws, mask, info, style);
        },
        FieldShape::Struct(fields) => {
            law_covering_mask_fits(ws, mask, fields@, style);
        },
    }
}

/// A mask that covers every word lets every field of a struct mark what it claims.
pub proof fn law_covering_mask_fits(
    ws: Seq<Seq<char>>,
    mask: Seq<u8>,
    fields: Seq<FieldShape>,
    style: ParserStyle,
)
    requires
        ws.len() <= usize::MAX,
        mask.len() >= ws.len(),
    ensures
        spec_tags_fit(ws, mask, fields, style),
    decreases fields,
{
    if fields.len() > 0 {
        let t = spec_tag_shape(ws, mask, fields[0], style);
        law_covering_mask_fits_shape(ws, mask, fields[0], style);
        law_covering_mask_fits(ws, marked(mask, t), fields.subrange(1, fields.len() as int), style);
    }
}

/// A field never claims a word twice, nor a word claimed before it: every word it claims is
/// a word of the command line that was free, and no word is claimed twice.
pub proof fn law_shape_claims_each_word_once(
    ws: Seq<Seq<char>>,
    mask: Seq<u8>,
    f: FieldShape,
    style: ParserStyle,
)
    requires
        ws.len() <= usize::MAX,
        mask.len() >= ws.len(),
    ensures
        ({
            let r = spec_tag_shape(ws, mask, f, style);
            &&& forall|k: int| 0 <= k < r.len() ==> #[trigger] r[k] < ws.len() && mask[r[k] as int] == 0
            &&& forall|k: int, l: int| 0 <= k < l < r.len() ==> r[k] != r[l]
        }),
    decreases f,
{
    match f {
        FieldShape::Single(info) => {
            crate::parselib::laws::law_single_tag_claims_free_words(ws, mask, info, style);
            let r = spec_single_tag(ws, mask, info, style);
            assert(spec_tag_shape(ws, mask, f, style) == r);
            assert forall|k: int| 0 <= k < r.len() implies #[trigger] r[k] < ws.len() && mask[r[k] as int] == 0 by {
                assert(is_free(mask, r[k] as int));
            }
        },
        FieldShape::Struct(fields) => {
            law_fields_claim_each_word_once(ws, mask, fields@, style);
            assert(spec_tag_shape(ws, mask, f, style) == spec_tag_fields(ws, mask, fields@, style));
        },
    }
}

/// The fields of a struct never claim a word twice, nor a word claimed before the struct's
/// tag phase began: every word they claim together is a word of the command line that was
/// free, and no word is claimed by two fields.
pub proof fn law_fields_claim_each_word_once(
    ws: Seq<Seq<char>>,
    mask: Seq<u8>,
    fields: Seq<FieldShape>,
    style: ParserStyle,
)
    requires
        ws.len() <= usize::MAX,
        mask.len() >= ws.len(),
    ensures
        ({
            let r = spec_tag_fields(ws, mask, fields, style);
            &&& forall|k: int| 0 <= k < r.len() ==> #[trigger] r[k] < ws.len() && mask[r[k] as int] == 0
            &&& forall|k: int, l: int| 0 <= k < l < r.len() ==> r[k] != r[l]
        }),
    decreases fields,
{
    if fields.len() > 0 {
        let t = spec_tag_shape(ws, mask, fields[0], style);
        law_shape_claims_each_word_once(ws, mask, fields[0], style);
        let m2 = marked(mask, t);
        let rest_fields = fields.subrange(1, fields.len() as int);
        law_fields_claim_each_word_once(ws, m2, rest_fields, style);
        let rest = spec_tag_fields(ws, m2, rest_fields, style);
        let r = spec_tag_fields(ws, mask, fields, style);
        assert(r == t + rest);
        assert forall|k: int| 0 <= k < rest.len() implies !t.contains(#[trigger] rest[k]) && mask[rest[k] as int] == 0 by {
            let x = rest[k];
            assert(m2[x as int] == 0);
            if t.contains(x) {
                assert((x as int) as usize == x);
            }
        }
        assert forall|k: int| 0 <= k < r.len() implies #[trigger] r[k] < ws.len() && mask[r[k] as int] == 0 by {
            if k >= t.len() {
                assert(r[k] == rest[k - t.len()]);
            } else {
                assert(r[k] == t[k]);
            }
        }
        assert forall|k: int, l: int| 0 <= k < l < r.len() implies r[k] != r[l] by {
            if l >= t.len() {
                assert(r[l] == rest[l - t.len()]);
                if k < t.len() {
                    assert(r[k] == t[k]);
                    assert(t.contains(r[k]));
                } else {
                    assert(r[k] == rest[k - t.len()]);
                }
            } else {
                assert(r[k] == t[k]);
                assert(r[l] == t[l]);
            }
        }
    }
}

/// The words a field claims: a single-value field claims what its matcher tags, and a struct
/// field what its own fields claim together.
pub fn tag_shape(args: &[&str], mask: &[u8], f: &FieldShape, style: &ParserStyle) -> (r: Vec<usize>)
    requires
        spec_shape_fits(words(args@), mask@, *f, *style),
    ensures
        r@ == spec_tag_shape(words(args@), mask@, *f, *style),
    decreases *f,
{
    match f {
        FieldShape::Single(info) => {
            let ctx = TagPhaseContext { arg_info: info, args, mask, style };
            SingleMatcher::tag(&ctx)
        },
        FieldShape::Struct(fields) => {
            proof {
                assert(decreases_to!(*f => fields@));
            }
            tag_fields(args, mask, fields.as_slice(), style)
        },
    }
}

/// The tag phase of a struct: each field claims only what its own tag returns, with the words
/// claimed by the fields before it marked; the mask handed in is left as it is.
pub fn tag_fields(args: &[&str], mask: &[u8], fields: &[FieldShape], style: &ParserStyle) -> (r: Vec<
    usize,
>)
    requires
        spec_tags_fit(words(args@), mask@, fields@, *style),
    ensures
        r@ == spec_tag_fields(words(args@), mask@, fields@, *style),
    decreases fields@,
{
    let ghost ws = words(args@);
    let mut m: Vec<u8> = Vec::new();
    let mut c: usize = 0;
    while c < mask.len()
        invariant
            c <= mask@.len(),
            m@ =~= mask@.take(c as int),
        decreases mask@.len() - c,
    {
        m.push(mask[c]);
        c = c + 1;
    }
    assert(mask@.take(c as int) =~= mask@);
    let n_args = args.len();
    let n_mask = m.len();
    assert(ws.len() == n_args);
    let mut tagged: Vec<usize> = Vec::new();
    let mut f: usize = 0;
    assert(fields@.skip(0) =~= fields@);
    while f < fields.len()
        invariant
            f <= fields@.len(),
            ws == words(args@),
            m@.len() == mask@.len(),
            ws.len() <= usize::MAX,
            m@.len() <= usize::MAX,
            spec_tags_fit(ws, m@, fields@.skip(f as int), *style),
            tagged@ + spec_tag_fields(ws, m@, fields@.skip(f as int), *style) == spec_tag_fields(
                ws,
                mask@,
                fields@,
                *style,
            ),
        decreases fields@.len() - f,
    {
        proof {
            let rest = fields@.skip(f as int);
            assert(rest.subrange(1, rest.len() as int) =~= fields@.skip(f + 1));
            assert(rest[0] == fields@[f as int]);
            assert(decreases_to!(fields@ => fields@[f as int]));
        }
        let t = tag_shape(args, m.as_slice(), &fields[f], style);
        proof {
            lemma_shape_in_mask(ws, m@, fields@[f as int], *style);
        }
        let ghost m0 = m@;
        let mut j: usize = 0;
        while j < t.len()
            invariant
                j <= t@.len(),
                m@.len() == m0.len(),
                m0.len() <= usize::MAX,
                forall|k: int| 0 <= k < t@.len() ==> #[trigger] t@[k] < m0.len(),
                forall|i: int|
                    0 <= i < m@.len() ==> #[trigger] m@[i] == (if t@.take(j as int).contains(
                        i as usize,
                    ) {
                        1u8
                    } else {
                        m0[i]
                    }),
            decreases t@.len() - j,
        {
            let idx = t[j];
            m.set(idx, 1);
            assert forall|i: int| 0 <= i < m@.len() implies #[trigger] m@[i] == (if t@.take(
                j + 1,
            ).contains(i as usize) {
                1u8
            } else {
                m0[i]
            }) by {
                assert(t@.take(j + 1) =~= t@.take(j as int).push(idx));
                let iu = i as usize;
                assert(iu as int == i);
                if i == idx as int {
                    assert(t@.take(j + 1)[j as int] == idx);
                    assert(t@.take(j + 1).contains(iu));
                } else {
                    if t@.take(j + 1).contains(iu) {
                        let q = choose|q: int| 0 <= q < t@.take(j + 1).len() && #[trigger] t@.take(j + 1)[q] == iu;
                        assert(q != j as int);
                        assert(t@.take(j as int)[q] == iu);
                    }
                    if t@.take(j as int).contains(iu) {
                        let q = choose|q: int| 0 <= q < t@.take(j as int).len() && #[trigger] t@.take(j as int)[q] == iu;
                        assert(t@.take(j + 1)[q] == iu);
                    }
                }
            }
            j = j + 1;
        }
        assert(t@.take(j as int) =~= t@);
        assert(m@ =~= marked(m0, t@));
        let ghost before = tagged@;
        let mut t2 = t;
        tagged.append(&mut t2);
        assert(tagged@ =~= before + t@);
        f = f + 1;
    }
    assert(fields@.skip(f as int) =~= Seq::<FieldShape>::empty());
    assert(tagged@ =~= spec_tag_fields(ws, mask@, fields@, *style));
    tagged
}

} // verus!
