//! Reading the text form of a package, stated as functions on its lines.
//!
//! A position is the index of the next line to read. Reading skips lines
//! that hold only whitespace; a line that ends a list is left unread for the
//! enclosing reader. Whether a value reads as a float is decided by a table
//! from value texts to what `str::parse::<f32>` gives for them.

use crate::b64::base64_decoded;
use crate::chars::{ends_with, find, indented, replace, split_once, starts_with, trim, words};
use crate::format::{parse_summary, UassetError};
use crate::numtext::{parse_signed, parse_unsigned};
use crate::types::{
    kind_of, spec_type_name, DataModel, HeaderModel, MetadataModel, ObjectModel, PropertyKind,
    PropertyModel, SummaryModel,
};
use vstd::prelude::*;
use vstd::utf8::encode_utf8;

verus! {

/// Why text could not be read as a package.
#[derive(Clone, Copy, PartialEq, Eq, Structural, Debug)]
pub enum TextError {
    /// The first line does not start with `summary:`.
    NoSummary,
    /// The second line does not start with `contents:`.
    NoContents,
    /// A base64 value does not decode.
    InvalidBase64,
    /// The summary's bytes do not read as a summary.
    Binary(UassetError),
    /// A property line has no `:`.
    MissingColon,
    /// An integer does not parse or does not fit its type.
    InvalidNumber,
    /// A map key of a float map does not parse as a float.
    InvalidFloat,
    /// A tagged value lacks a parameter.
    MissingParameter,
    /// A quoted string has no closing quote.
    UnclosedString,
    /// A map field line is not indented under the map or has no `:`.
    MapLayout,
    /// An array field line is not indented under the array or has no `:`.
    ArrayLayout,
    /// A map entry is not of the form `- key: value`.
    MapEntryFormat,
    /// An array item is not of the form `- index: value`.
    ArrayItemFormat,
    /// A map's key type has no text form for its keys.
    UnknownKeyType,
    /// An item or map value is not of the declared type.
    TypeMismatch,
    /// A field name that the map, array or item schema does not have.
    UnknownField,
    /// A map has no entries.
    MissingMapData,
    /// Entries come before the types they need.
    FieldOrder,
    /// A required field is missing.
    MissingField,
    /// An array has an item schema but no array name.
    MissingArrayName,
}

/// The lines of a text as `read_line` yields them: each with its line
/// break, the last one without where the text does not end in one.
pub open spec fn lines(t: Seq<char>) -> Seq<Seq<char>>
    decreases t.len(),
{
    if t.len() == 0 {
        seq![]
    } else {
        match find(t, '\n') {
            Some(i) => if 0 <= i < t.len() {
                seq![t.take(i + 1)] + lines(t.skip(i + 1))
            } else {
                seq![t]
            },
            None => seq![t],
        }
    }
}

/// Line `j`, or the empty line past the end.
pub open spec fn line_at(ls: Seq<Seq<char>>, j: int) -> Seq<char> {
    if 0 <= j < ls.len() {
        ls[j]
    } else {
        seq![]
    }
}

/// The index of the first line at or after `pos` that holds more than
/// whitespace, or the number of lines.
pub open spec fn next_line(ls: Seq<Seq<char>>, pos: int) -> int
    decreases ls.len() - pos,
{
    if pos >= ls.len() {
        ls.len() as int
    } else if pos >= 0 && trim(ls[pos]).len() == 0 {
        next_line(ls, pos + 1)
    } else {
        pos
    }
}

pub proof fn lemma_next_line(ls: Seq<Seq<char>>, pos: int)
    requires
        0 <= pos <= ls.len(),
    ensures
        pos <= next_line(ls, pos) <= ls.len(),
        next_line(ls, pos) < ls.len() ==> trim(ls[next_line(ls, pos)]).len() > 0,
        forall|k: int| pos <= k < next_line(ls, pos) ==> trim(#[trigger] ls[k]).len() == 0,
    decreases ls.len() - pos,
{
    if pos < ls.len() && trim(ls[pos]).len() == 0 {
        lemma_next_line(ls, pos + 1);
    }
}

/// What the table says `str::parse::<f32>` gives for `s`: the first entry
/// for `s`, or `None` where there is none.
pub open spec fn float_of(fl: Seq<(Seq<char>, Option<u32>)>, s: Seq<char>) -> Option<u32>
    decreases fl.len(),
{
    if fl.len() == 0 {
        None
    } else if fl[0].0 == s {
        fl[0].1
    } else {
        float_of(fl.drop_first(), s)
    }
}

/// The characters of `s` before the first `c` (all of `s` if there is none).
pub open spec fn until(s: Seq<char>, c: char) -> Seq<char> {
    match find(s, c) {
        Some(i) => s.take(i),
        None => s,
    }
}

/// The characters of `s` from the first `c` on (none if there is none).
pub open spec fn from_char(s: Seq<char>, c: char) -> Seq<char> {
    match find(s, c) {
        Some(i) => s.skip(i),
        None => seq![],
    }
}

/// A property name with an optional `[index]`: the name before `[`, and
/// the number up to `]`, or zero.
#[verifier::opaque]
pub open spec fn name_and_index(t: Seq<char>) -> Result<(Seq<char>, usize), TextError> {
    let rest = from_char(t, '[');
    if rest.len() == 0 {
        Ok((until(t, '['), 0))
    } else {
        match parse_unsigned(until(rest.drop_first(), ']'), 10, usize::MAX as nat) {
            Some(v) => Ok((until(t, '['), v as usize)),
            None => Err(TextError::InvalidNumber),
        }
    }
}

/// The text after the first space.
pub open spec fn after_space(v: Seq<char>) -> Option<Seq<char>> {
    match split_once(v, ' ') {
        Some((_, b)) => Some(b),
        None => None,
    }
}

/// `v` with `\n` escapes turned into line breaks.
pub open spec fn unescape_newlines(v: Seq<char>) -> Seq<char> {
    replace(v, seq!['\\', 'n'], seq!['\n'])
}

/// A plain string value: between the quotes where it starts with one,
/// with `\n` escapes turned into line breaks.
#[verifier::opaque]
pub open spec fn string_value(v: Seq<char>) -> Result<Seq<char>, TextError> {
    if starts_with(v, seq!['"']) {
        if !ends_with(v, seq!['"']) || v.len() < 2 {
            Err(TextError::UnclosedString)
        } else {
            Ok(unescape_newlines(v.subrange(1, v.len() - 1)))
        }
    } else {
        Ok(unescape_newlines(v))
    }
}

/// An integer value tagged `!u16`, `!u32`, `!i8`, `!i16` or `!i32`: the
/// text after the first space, as that type.
#[verifier::opaque]
pub open spec fn tagged_int(v: Seq<char>, k: PropertyKind, pos: int) -> Result<
    (DataModel, MetadataModel, int),
    TextError,
> {
    match after_space(v) {
        None => Err(TextError::MissingParameter),
        Some(x) => {
            let r = match k {
                PropertyKind::UInt16Property => match parse_unsigned(x, 10, 0xFFFF) {
                    Some(n) => Some(DataModel::UInt16(n as u16)),
                    None => None,
                },
                PropertyKind::UInt32Property => match parse_unsigned(x, 10, 0xFFFF_FFFF) {
                    Some(n) => Some(DataModel::UInt32(n as u32)),
                    None => None,
                },
                PropertyKind::Int8Property => match parse_signed(x, 10, -0x80, 0x7F) {
                    Some(n) => Some(DataModel::Int8(n as i8)),
                    None => None,
                },
                PropertyKind::Int16Property => match parse_signed(x, 10, -0x8000, 0x7FFF) {
                    Some(n) => Some(DataModel::Int16(n as i16)),
                    None => None,
                },
                _ => match parse_signed(x, 10, -0x8000_0000, 0x7FFF_FFFF) {
                    Some(n) => Some(DataModel::Int32(n as i32)),
                    None => None,
                },
            };
            match r {
                Some(d) => Ok((d, MetadataModel::Empty, pos)),
                None => Err(TextError::InvalidNumber),
            }
        },
    }
}

/// A value that takes no further lines, from its trimmed text `v`.
#[verifier::opaque]
pub open spec fn scalar_value(fl: Seq<(Seq<char>, Option<u32>)>, v: Seq<char>, pos: int) -> Result<
    (DataModel, MetadataModel, int),
    TextError,
> {
    if starts_with(v, "!u16"@) {
        tagged_int(v, PropertyKind::UInt16Property, pos)
    } else if starts_with(v, "!u32"@) {
        tagged_int(v, PropertyKind::UInt32Property, pos)
    } else if starts_with(v, "!i8"@) {
        tagged_int(v, PropertyKind::Int8Property, pos)
    } else if starts_with(v, "!i16"@) {
        tagged_int(v, PropertyKind::Int16Property, pos)
    } else if starts_with(v, "!i32"@) {
        tagged_int(v, PropertyKind::IntProperty, pos)
    } else if starts_with(v, "!ByteProperty"@) {
        let w = words(v);
        if w.len() < 4 {
            Err(TextError::MissingParameter)
        } else {
            match (
                parse_unsigned(w[3], 16, 0xFF),
                parse_unsigned(w[1], 16, 0xFFFF_FFFF_FFFF_FFFF),
                parse_unsigned(w[2], 16, 0xFF),
            ) {
                (Some(b), Some(e), Some(x)) => Ok(
                    (DataModel::Byte(b as u8), MetadataModel::Byte(e as u64, x as u8), pos),
                ),
                _ => Err(TextError::InvalidNumber),
            }
        }
    } else if starts_with(v, "!EnumProperty"@) {
        let w = words(v);
        if w.len() < 3 {
            Err(TextError::MissingParameter)
        } else {
            Ok(
                (
                    DataModel::Enum(replace(w[2], "->"@, "::"@)),
                    MetadataModel::Enum(w[1]),
                    pos,
                ),
            )
        }
    } else if starts_with(v, "!utf16"@) {
        match after_space(v) {
            None => Err(TextError::MissingParameter),
            Some(x) => Ok((DataModel::StringUtf16(unescape_newlines(x)), MetadataModel::Empty, pos)),
        }
    } else if starts_with(v, "!EmptyString"@) {
        Ok((DataModel::String(seq![]), MetadataModel::Empty, pos))
    } else if starts_with(v, "!name"@) {
        match after_space(v) {
            None => Err(TextError::MissingParameter),
            Some(x) => Ok((DataModel::Name(x), MetadataModel::Empty, pos)),
        }
    } else {
        match float_of(fl, v) {
            Some(b) => Ok((DataModel::Float(b), MetadataModel::Empty, pos)),
            None => if v == "true"@ {
                Ok((DataModel::Bool, MetadataModel::Bool(true), pos))
            } else if v == "false"@ {
                Ok((DataModel::Bool, MetadataModel::Bool(false), pos))
            } else {
                match string_value(v) {
                    Ok(s) => Ok((DataModel::String(s), MetadataModel::Empty, pos)),
                    Err(e) => Err(e),
                }
            },
        }
    }
}

/// The header of a struct value, `!struct <metadata> [<raw bytes>]` in
/// base64, or nothing.
#[verifier::opaque]
pub open spec fn struct_head(v: Seq<char>) -> Result<(MetadataModel, Seq<u8>), TextError> {
    if v.len() == 0 {
        Ok((MetadataModel::Empty, seq![]))
    } else {
        let w = words(v);
        if w.len() < 2 {
            Err(TextError::MissingParameter)
        } else {
            match base64_decoded(encode_utf8(w[1])) {
                None => Err(TextError::InvalidBase64),
                Some(meta) => if w.len() < 3 {
                    Ok((MetadataModel::Struct(meta), seq![]))
                } else {
                    match base64_decoded(encode_utf8(w[2])) {
                        None => Err(TextError::InvalidBase64),
                        Some(raw) => Ok((MetadataModel::Struct(meta), raw)),
                    }
                },
            }
        }
    }
}

/// Reads the value whose text on its property's line is `val`; structs,
/// maps and arrays continue on the lines from `pos`, indented beyond `ind`.
pub open spec fn parse_value(
    ls: Seq<Seq<char>>,
    fl: Seq<(Seq<char>, Option<u32>)>,
    val: Seq<char>,
    pos: int,
    ind: nat,
) -> Result<(DataModel, MetadataModel, int), TextError>
    decreases ls.len() - pos, 3int,
{
    let v = trim(val);
    if v.len() == 0 || starts_with(v, "!struct"@) {
        match struct_head(v) {
            Err(e) => Err(e),
            Ok((meta, raw)) => match parse_props(ls, fl, pos, ind + 2) {
                Err(e) => Err(e),
                Ok((props, p)) => Ok((DataModel::Struct(props, raw), meta, p)),
            },
        }
    } else if starts_with(v, "!Map"@) {
        parse_map(ls, fl, pos, ind)
    } else if starts_with(v, "!Array"@) {
        parse_array(ls, fl, pos, ind)
    } else {
        scalar_value(fl, v, pos)
    }
}

/// Reads a property at the next line if it is indented by `ind`: its name
/// with an optional index, and its value; its type is that of its value.
pub open spec fn parse_prop(ls: Seq<Seq<char>>, fl: Seq<(Seq<char>, Option<u32>)>, pos: int, ind: nat) -> Result<
    (Option<PropertyModel>, int),
    TextError,
>
    decreases ls.len() - pos, 1int,
{
    let j = next_line(ls, pos);
    let line = line_at(ls, j);
    if line.len() == 0 || !indented(line, ind) {
        Ok((None, j))
    } else {
        match split_once(line, ':') {
            None => Err(TextError::MissingColon),
            Some((a, b)) => match name_and_index(trim(a)) {
                Err(e) => Err(e),
                Ok((name, idx)) => if 0 <= pos <= j < ls.len() {
                    match parse_value(ls, fl, b, j + 1, ind) {
                        Err(e) => Err(e),
                        Ok((d, m, p)) => Ok(
                            (
                                Some(
                                    PropertyModel {
                                        header: HeaderModel {
                                            name: name,
                                            prop_type: spec_type_name(d),
                                            arr_index: idx,
                                        },
                                        metadata: m,
                                        data: d,
                                    },
                                ),
                                p,
                            ),
                        ),
                    }
                } else {
                    Err(TextError::MissingColon)
                },
            },
        }
    }
}

/// Reads properties indented by `ind` up to the first line that is not one.
pub open spec fn parse_props(ls: Seq<Seq<char>>, fl: Seq<(Seq<char>, Option<u32>)>, pos: int, ind: nat) -> Result<
    (Seq<PropertyModel>, int),
    TextError,
>
    decreases ls.len() - pos, 2int,
{
    match parse_prop(ls, fl, pos, ind) {
        Err(e) => Err(e),
        Ok((None, p)) => Ok((seq![], p)),
        Ok((Some(prop), p)) => if pos < p <= ls.len() {
            match parse_props(ls, fl, p, ind) {
                Err(e) => Err(e),
                Ok((rest, q)) => Ok((seq![prop] + rest, q)),
            }
        } else {
            Err(TextError::MissingColon)
        },
    }
}

/// A map key of the map's key type.
#[verifier::opaque]
pub open spec fn map_key(fl: Seq<(Seq<char>, Option<u32>)>, key: Seq<char>, key_type: Seq<char>) -> Result<
    DataModel,
    TextError,
> {
    match kind_of(key_type) {
        PropertyKind::IntProperty => match parse_signed(key, 10, -0x8000_0000, 0x7FFF_FFFF) {
            Some(n) => Ok(DataModel::Int32(n as i32)),
            None => Err(TextError::InvalidNumber),
        },
        PropertyKind::UInt16Property => match parse_unsigned(key, 10, 0xFFFF) {
            Some(n) => Ok(DataModel::UInt16(n as u16)),
            None => Err(TextError::InvalidNumber),
        },
        PropertyKind::StrProperty => Ok(DataModel::String(key)),
        PropertyKind::FloatProperty => match float_of(fl, key) {
            Some(b) => Ok(DataModel::Float(b)),
            None => Err(TextError::InvalidFloat),
        },
        PropertyKind::ByteProperty => match parse_unsigned(key, 16, 0xFF) {
            Some(n) => Ok(DataModel::Byte(n as u8)),
            None => Err(TextError::InvalidNumber),
        },
        PropertyKind::EnumProperty => Ok(DataModel::Enum(replace(key, "->"@, "::"@))),
        _ => Err(TextError::UnknownKeyType),
    }
}

/// A line that continues a list: it starts, after whitespace, with `-` and
/// is indented by `ind`.
pub open spec fn is_entry(line: Seq<char>, ind: nat) -> bool {
    starts_with(trim(line), seq!['-']) && indented(line, ind)
}

/// Reads map entries `- key: value` indented by `ind + 4`.
pub open spec fn map_entries(
    ls: Seq<Seq<char>>,
    fl: Seq<(Seq<char>, Option<u32>)>,
    pos: int,
    ind: nat,
    key_type: Seq<char>,
) -> Result<(Seq<(DataModel, DataModel, MetadataModel)>, int), TextError>
    decreases ls.len() - pos, 0int,
{
    let j = next_line(ls, pos);
    let line = line_at(ls, j);
    if !is_entry(line, ind + 4) {
        Ok((seq![], j))
    } else {
        match split_once(line, '-') {
            None => Err(TextError::MapEntryFormat),
            Some((_, rest)) => match split_once(rest, ':') {
                None => Err(TextError::MapEntryFormat),
                Some((k, v)) => match map_key(fl, trim(k), key_type) {
                    Err(e) => Err(e),
                    Ok(key) => if 0 <= pos <= j < ls.len() {
                        match parse_value(ls, fl, v, j + 1, ind + 6) {
                            Err(e) => Err(e),
                            Ok((item, meta, p)) => if j < p <= ls.len() {
                                match map_entries(ls, fl, p, ind, key_type) {
                                    Err(e) => Err(e),
                                    Ok((more, q)) => Ok((seq![(key, item, meta)] + more, q)),
                                }
                            } else {
                                Err(TextError::MapEntryFormat)
                            },
                        }
                    } else {
                        Err(TextError::MapEntryFormat)
                    },
                },
            },
        }
    }
}

/// The fields of a map, read `k` more times: `key_type`, `val_type`, and
/// `map_data`, whose entries are checked against the value type.
pub open spec fn map_fields(
    ls: Seq<Seq<char>>,
    fl: Seq<(Seq<char>, Option<u32>)>,
    pos: int,
    ind: nat,
    k: nat,
    key_type: Option<Seq<char>>,
    val_type: Option<Seq<char>>,
    sets: Seq<(DataModel, DataModel, MetadataModel)>,
) -> Result<(Option<Seq<char>>, Option<Seq<char>>, Seq<(DataModel, DataModel, MetadataModel)>, int), TextError>
    decreases ls.len() - pos, 1int,
{
    if k == 0 {
        Ok((key_type, val_type, sets, pos))
    } else {
        let j = next_line(ls, pos);
        let line = line_at(ls, j);
        if !indented(line, ind + 2) {
            Err(TextError::MapLayout)
        } else {
            match split_once(line, ':') {
                None => Err(TextError::MapLayout),
                Some((a, b)) => if !(0 <= pos <= j < ls.len()) {
                    Err(TextError::MapLayout)
                } else {
                    let f = trim(a);
                    if f == "key_type"@ {
                        map_fields(ls, fl, j + 1, ind, (k - 1) as nat, Some(trim(b)), val_type, sets)
                    } else if f == "val_type"@ {
                        map_fields(ls, fl, j + 1, ind, (k - 1) as nat, key_type, Some(trim(b)), sets)
                    } else if f == "map_data"@ {
                        match (key_type, val_type) {
                            (Some(kt), Some(vt)) => match map_entries(ls, fl, j + 1, ind, kt) {
                                Err(e) => Err(e),
                                Ok((more, p)) => {
                                    let all = sets + more;
                                    if exists|i: int|
                                        0 <= i < all.len() && spec_type_name(#[trigger] all[i].1) != vt {
                                        Err(TextError::TypeMismatch)
                                    } else if j < p <= ls.len() {
                                        map_fields(ls, fl, p, ind, (k - 1) as nat, key_type, val_type, all)
                                    } else {
                                        Err(TextError::MapLayout)
                                    }
                                },
                            },
                            _ => Err(TextError::FieldOrder),
                        }
                    } else {
                        Err(TextError::UnknownField)
                    }
                },
            }
        }
    }
}

/// Reads a map: three field lines indented by `ind + 2`.
pub open spec fn parse_map(ls: Seq<Seq<char>>, fl: Seq<(Seq<char>, Option<u32>)>, pos: int, ind: nat) -> Result<
    (DataModel, MetadataModel, int),
    TextError,
>
    decreases ls.len() - pos, 2int,
{
    match map_fields(ls, fl, pos, ind, 3, None, None, seq![]) {
        Err(e) => Err(e),
        Ok((kt, vt, sets, p)) => if sets.len() == 0 {
            Err(TextError::MissingMapData)
        } else {
            match (kt, vt) {
                (Some(k), Some(v)) => Ok(
                    (
                        DataModel::MapEntries(sets.map(|i: int, s: (DataModel, DataModel, MetadataModel)| (s.0, s.1))),
                        MetadataModel::MapTypes(k, v),
                        p,
                    ),
                ),
                _ => Err(TextError::MissingField),
            }
        },
    }
}

/// The `name` and `type` lines of an array's item schema, read `k` more
/// times.
pub open spec fn schema_fields(
    ls: Seq<Seq<char>>,
    pos: int,
    ind: nat,
    k: nat,
    name: Option<Seq<char>>,
    prop_type: Option<Seq<char>>,
) -> Result<(Option<Seq<char>>, Option<Seq<char>>, int), TextError>
    decreases k,
{
    if k == 0 {
        Ok((name, prop_type, pos))
    } else {
        let j = next_line(ls, pos);
        let line = line_at(ls, j);
        if !indented(line, ind + 4) {
            Err(TextError::ArrayLayout)
        } else {
            match split_once(line, ':') {
                None => Err(TextError::ArrayLayout),
                Some((a, b)) => if trim(a) == "name"@ {
                    schema_fields(ls, j + 1, ind, (k - 1) as nat, Some(trim(b)), prop_type)
                } else if trim(a) == "type"@ {
                    schema_fields(ls, j + 1, ind, (k - 1) as nat, name, Some(trim(b)))
                } else {
                    Err(TextError::UnknownField)
                },
            }
        }
    }
}

/// An array's item schema: a tag with a name and a type and index zero.
pub open spec fn parse_schema(ls: Seq<Seq<char>>, pos: int, ind: nat) -> Result<(HeaderModel, int), TextError> {
    match schema_fields(ls, pos, ind, 2, None, None) {
        Err(e) => Err(e),
        Ok((Some(n), Some(t), p)) => Ok((HeaderModel { name: n, prop_type: t, arr_index: 0 }, p)),
        Ok(_) => Err(TextError::MissingField),
    }
}

/// Reads array items `- index: value` indented by `ind + 2`.
pub open spec fn array_items(ls: Seq<Seq<char>>, fl: Seq<(Seq<char>, Option<u32>)>, pos: int, ind: nat) -> Result<
    (Seq<(DataModel, MetadataModel)>, int),
    TextError,
>
    decreases ls.len() - pos, 0int,
{
    let j = next_line(ls, pos);
    let line = line_at(ls, j);
    if !is_entry(line, ind + 2) {
        Ok((seq![], j))
    } else {
        match split_once(line, ':') {
            None => Err(TextError::ArrayItemFormat),
            Some((_, v)) => if 0 <= pos <= j < ls.len() {
                match parse_value(ls, fl, v, j + 1, ind + 4) {
                    Err(e) => Err(e),
                    Ok((d, m, p)) => if j < p <= ls.len() {
                        match array_items(ls, fl, p, ind) {
                            Err(e) => Err(e),
                            Ok((more, q)) => Ok((seq![(d, m)] + more, q)),
                        }
                    } else {
                        Err(TextError::ArrayItemFormat)
                    },
                }
            } else {
                Err(TextError::ArrayItemFormat)
            },
        }
    }
}

/// The fields of an array, read while the count `i` is below two: each
/// field counts one, except that an item type of `StructProperty` counts
/// one less, leaving room for the schema and array name.
pub open spec fn array_fields(
    ls: Seq<Seq<char>>,
    fl: Seq<(Seq<char>, Option<u32>)>,
    pos: int,
    ind: nat,
    i: int,
    item_type: Option<Seq<char>>,
    schema: Option<HeaderModel>,
    array_name: Option<Seq<char>>,
    items: Seq<(DataModel, MetadataModel)>,
) -> Result<
    (Option<Seq<char>>, Option<HeaderModel>, Option<Seq<char>>, Seq<(DataModel, MetadataModel)>, int),
    TextError,
>
    decreases ls.len() - pos, 1int,
{
    if i >= 2 {
        Ok((item_type, schema, array_name, items, pos))
    } else {
        let j = next_line(ls, pos);
        let line = line_at(ls, j);
        if !indented(line, ind + 2) {
            Err(TextError::ArrayLayout)
        } else {
            match split_once(line, ':') {
                None => Err(TextError::ArrayLayout),
                Some((a, b)) => if !(0 <= pos <= j < ls.len()) {
                    Err(TextError::ArrayLayout)
                } else {
                    let f = trim(a);
                    if f == "item_type"@ {
                        let t = trim(b);
                        let next = if t == "StructProperty"@ {
                            i - 1
                        } else {
                            i + 1
                        };
                        array_fields(ls, fl, j + 1, ind, next, Some(t), schema, array_name, items)
                    } else if f == "item_schema"@ {
                        match parse_schema(ls, j + 1, ind) {
                            Err(e) => Err(e),
                            Ok((h, p)) => if j < p <= ls.len() {
                                array_fields(ls, fl, p, ind, i + 1, item_type, Some(h), array_name, items)
                            } else {
                                Err(TextError::ArrayLayout)
                            },
                        }
                    } else if f == "array_name"@ {
                        array_fields(ls, fl, j + 1, ind, i + 1, item_type, schema, Some(trim(b)), items)
                    } else if f == "items"@ {
                        match item_type {
                            None => Err(TextError::FieldOrder),
                            Some(t) => match array_items(ls, fl, j + 1, ind) {
                                Err(e) => Err(e),
                                Ok((more, p)) => {
                                    let all = items + more;
                                    if exists|x: int|
                                        0 <= x < all.len() && spec_type_name(#[trigger] all[x].0) != t {
                                        Err(TextError::TypeMismatch)
                                    } else if j < p <= ls.len() {
                                        array_fields(ls, fl, p, ind, i + 1, item_type, schema, array_name, all)
                                    } else {
                                        Err(TextError::ArrayLayout)
                                    }
                                },
                            },
                        }
                    } else {
                        Err(TextError::UnknownField)
                    }
                },
            }
        }
    }
}

/// Reads an array: its field lines indented by `ind + 2`.
pub open spec fn parse_array(ls: Seq<Seq<char>>, fl: Seq<(Seq<char>, Option<u32>)>, pos: int, ind: nat) -> Result<
    (DataModel, MetadataModel, int),
    TextError,
>
    decreases ls.len() - pos, 2int,
{
    match array_fields(ls, fl, pos, ind, 0, None, None, None, seq![]) {
        Err(e) => Err(e),
        Ok((it, schema, an, items, p)) => {
            let values = items.map(|k: int, x: (DataModel, MetadataModel)| x.0);
            match schema {
                Some(h) => match an {
                    None => Err(TextError::MissingArrayName),
                    Some(n) => match it {
                        None => Err(TextError::MissingField),
                        Some(t) => Ok((DataModel::Array(values, Some((h, n))), MetadataModel::Array(t), p)),
                    },
                },
                None => match it {
                    None => Err(TextError::MissingField),
                    Some(t) => Ok((DataModel::Array(values, None), MetadataModel::Array(t), p)),
                },
            }
        },
    }
}

/// A summary from its base64 text.
pub open spec fn summary_from_text(s: Seq<char>) -> Result<SummaryModel, TextError> {
    match base64_decoded(encode_utf8(s)) {
        None => Err(TextError::InvalidBase64),
        Some(bytes) => match parse_summary(bytes, 0) {
            Err(e) => Err(TextError::Binary(e)),
            Ok((summary, _)) => Ok(summary),
        },
    }
}

/// Reads a package object: a `summary:` line, a `contents:` line, and its
/// properties, each indented by two spaces.
pub open spec fn parse_object_text(ls: Seq<Seq<char>>, fl: Seq<(Seq<char>, Option<u32>)>) -> Result<
    ObjectModel,
    TextError,
> {
    let first = line_at(ls, 0);
    if !starts_with(first, "summary:"@) {
        Err(TextError::NoSummary)
    } else {
        match split_once(first, ':') {
            None => Err(TextError::NoSummary),
            Some((_, b)) => match summary_from_text(trim(b)) {
                Err(e) => Err(e),
                Ok(summary) => if !starts_with(line_at(ls, 1), "contents:"@) {
                    Err(TextError::NoContents)
                } else {
                    match parse_props(ls, fl, 2, 2) {
                        Err(e) => Err(e),
                        Ok((props, _)) => Ok(ObjectModel { summary, properties: props }),
                    }
                },
            },
        }
    }
}

} // verus!
