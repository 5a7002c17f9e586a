//! Reading a package from its text form.

use crate::b64::base64_decode;
use crate::chars::{
    chars_of, expand_tabs, find_char, indented, replace_chars, slice_chars, split_once,
    split_once_chars, starts_with, starts_with_char, starts_with_str, string_of, trim, trim_chars,
    words, words_of,
};
use crate::numtext::{parse_signed_chars, parse_unsigned_chars};
use crate::text_parse::{
    after_space, float_of, from_char, line_at, lines, lemma_next_line, map_key, name_and_index,
    next_line, parse_props, parse_prop, parse_value, parse_schema, scalar_value, schema_fields,
    string_value, struct_head, tagged_int, unescape_newlines, until, map_entries, map_fields,
    parse_map, array_items, array_fields, parse_array, parse_object_text, summary_from_text,
    TextError,
};
use crate::types::{
    kind_of, properties_model, spec_type_name, IoUObject, ObjectModel, SummaryModel, UObjectSummary, DataModel, HeaderModel, MetadataModel, PropertyKind, PropertyModel,
    UObjectProperty, UObjectPropertyData, UObjectPropertyHeader, UObjectPropertyMetadata,
};
use vstd::prelude::*;
use vstd::utf8::*;

verus! {

/// The characters of each line.
pub open spec fn lines_view(ls: Seq<Vec<char>>) -> Seq<Seq<char>> {
    Seq::new(ls.len(), |i: int| ls[i]@)
}

/// The float table as character sequences.
pub open spec fn table_view(fl: Seq<(String, Option<u32>)>) -> Seq<(Seq<char>, Option<u32>)> {
    Seq::new(fl.len(), |i: int| (fl[i].0@, fl[i].1))
}

/// The index of the first line break at or after `i`, or the length.
fn line_end(text: &[char], i: usize) -> (j: usize)
    requires
        i <= text@.len(),
    ensures
        i <= j <= text@.len(),
        j < text@.len() ==> text@[j as int] == '\n',
        forall|k: int| i <= k < j ==> text@[k] != '\n',
{
    let n = text.len();
    let mut j = i;
    while j < n && text[j] != '\n'
        invariant
            i <= j <= n,
            n == text@.len(),
            forall|k: int| i <= k < j ==> text@[k] != '\n',
        decreases n - j,
    {
        j = j + 1;
    }
    j
}

proof fn lemma_lines_step(t: Seq<char>, i: int, j: int)
    requires
        0 <= i < t.len(),
        i <= j <= t.len(),
        j < t.len() ==> t[j] == '\n',
        forall|k: int| i <= k < j ==> t[k] != '\n',
    ensures
        j < t.len() ==> lines(t.skip(i)) == seq![t.subrange(i, j + 1)] + lines(t.skip(j + 1)),
        j == t.len() ==> lines(t.skip(i)) == seq![t.skip(i)],
{
    let rest = t.skip(i);
    if j < t.len() {
        assert(rest[j - i] == '\n');
        assert(crate::chars::find(rest, '\n') == Some(j - i)) by {
            let k = choose|k: int| 0 <= k < rest.len() && rest[k] == '\n' && forall|m: int| 0 <= m < k ==> rest[m] != '\n';
            assert(0 <= j - i < rest.len() && rest[j - i] == '\n');
            if k < j - i {
                assert(rest[k] == t[i + k]);
            } else if k > j - i {
            }
        }
        assert(rest.take(j - i + 1) =~= t.subrange(i, j + 1));
        assert(rest.skip(j - i + 1) =~= t.skip(j + 1));
    } else {
        assert(crate::chars::find(rest, '\n') is None) by {
            if exists|k: int| 0 <= k < rest.len() && rest[k] == '\n' {
                let k = choose|k: int| 0 <= k < rest.len() && rest[k] == '\n';
                assert(rest[k] == t[i + k]);
            }
        }
    }
}

/// Splits a text into lines, each with its line break.
pub fn split_lines(text: &[char]) -> (ls: Vec<Vec<char>>)
    ensures
        lines_view(ls@) == lines(text@),
{
    let mut out: Vec<Vec<char>> = Vec::new();
    let n = text.len();
    let mut i: usize = 0;
    assert(text@.skip(0) =~= text@);
    assert(lines_view(out@) + lines(text@) =~= lines(text@));
    while i < n
        invariant
            n == text@.len(),
            i <= n,
            lines(text@) == lines_view(out@) + lines(text@.skip(i as int)),
        decreases n - i,
    {
        let j = line_end(text, i);
        proof {
            lemma_lines_step(text@, i as int, j as int);
        }
        let ghost before = lines_view(out@);
        if j < n {
            let l = slice_chars(text, i, j + 1);
            out.push(l);
            assert(lines_view(out@) =~= before.push(l@));
            assert(before.push(l@) + lines(text@.skip(j + 1)) =~= before + (seq![l@] + lines(text@.skip(j + 1))));
            i = j + 1;
        } else {
            let l = slice_chars(text, i, n);
            assert(l@ =~= text@.skip(i as int));
            out.push(l);
            assert(lines_view(out@) =~= before.push(l@));
            assert(text@.skip(n as int) =~= Seq::<char>::empty());
            assert(lines(text@.skip(n as int)) =~= Seq::<Seq<char>>::empty());
            assert(before + seq![l@] =~= lines_view(out@) + lines(text@.skip(n as int)));
            i = n;
        }
    }
    assert(text@.skip(n as int) =~= Seq::<char>::empty());
    assert(lines_view(out@) + Seq::<Seq<char>>::empty() =~= lines_view(out@));
    out
}

/// The index of the next line at or after `pos` that holds more than
/// whitespace.
pub fn next_nonblank(ls: &Vec<Vec<char>>, pos: usize) -> (j: usize)
    requires
        pos <= ls@.len(),
    ensures
        j == next_line(lines_view(ls@), pos as int),
        pos <= j <= ls@.len(),
{
    let ghost v = lines_view(ls@);
    let mut j = pos;
    while j < ls.len() && trim_chars(ls[j].as_slice()).len() == 0
        invariant
            pos <= j <= ls@.len(),
            v == lines_view(ls@),
            next_line(v, pos as int) == next_line(v, j as int),
        decreases ls@.len() - j,
    {
        assert(v[j as int] == ls@[j as int]@);
        j = j + 1;
    }
    if j < ls.len() {
        assert(v[j as int] == ls@[j as int]@);
    }
    j
}

/// Line `j`, or the empty line past the end.
pub fn get_line(ls: &Vec<Vec<char>>, j: usize) -> (l: Vec<char>)
    ensures
        l@ == line_at(lines_view(ls@), j as int),
{
    if j < ls.len() {
        let l = slice_chars(ls[j].as_slice(), 0, ls[j].len());
        assert(l@ =~= ls@[j as int]@);
        l
    } else {
        Vec::new()
    }
}

/// Whether the line is indented by at least `spaces` columns.
pub fn check_indent(line: &[char], spaces: usize) -> (b: bool)
    ensures
        b == indented(line@, spaces as nat),
{
    let mut e: Vec<char> = Vec::new();
    let n = line.len();
    let mut i: usize = 0;
    assert(line@.skip(0) =~= line@);
    assert(e@ + expand_tabs(line@) =~= expand_tabs(line@));
    while i < n
        invariant
            n == line@.len(),
            i <= n,
            expand_tabs(line@) == e@ + expand_tabs(line@.skip(i as int)),
        decreases n - i,
    {
        let ghost rest = line@.skip(i as int);
        assert(rest.drop_first() =~= line@.skip(i + 1));
        assert(rest[0] == line@[i as int]);
        if line[i] == '\t' {
            e.push(' ');
            e.push(' ');
        } else {
            e.push(line[i]);
        }
        assert(expand_tabs(line@) =~= e@ + expand_tabs(line@.skip(i + 1)));
        i = i + 1;
    }
    assert(line@.skip(n as int) =~= Seq::<char>::empty());
    assert(e@ =~= expand_tabs(line@));
    let m = e.len();
    for k in 0..m
        invariant
            m == e@.len(),
            e@ == expand_tabs(line@),
            forall|t: int| 0 <= t < k && t < spaces ==> e@[t] == ' ',
    {
        if k < spaces && e[k] != ' ' {
            return false;
        }
    }
    true
}

/// The float table's entry for `s`.
pub fn lookup_float(fl: &[(String, Option<u32>)], s: &[char]) -> (r: Option<u32>)
    ensures
        r == float_of(table_view(fl@), s@),
{
    let ghost t = table_view(fl@);
    let n = fl.len();
    assert(t.skip(0) =~= t);
    for i in 0..n
        invariant
            n == fl@.len(),
            t == table_view(fl@),
            float_of(t, s@) == float_of(t.skip(i as int), s@),
    {
        let ghost rest = t.skip(i as int);
        assert(rest[0] == (fl@[i as int].0@, fl@[i as int].1));
        assert(rest.drop_first() =~= t.skip(i + 1));
        let c = chars_of(fl[i].0.as_str());
        if same_chars(&c, s) {
            return fl[i].1;
        }
    }
    assert(t.skip(n as int).len() == 0);
    None
}

/// Whether two character sequences are equal.
pub fn same_chars(a: &[char], b: &[char]) -> (r: bool)
    ensures
        r == (a@ == b@),
{
    if a.len() != b.len() {
        return false;
    }
    let n = a.len();
    for i in 0..n
        invariant
            n == a@.len(),
            n == b@.len(),
            forall|k: int| 0 <= k < i ==> a@[k] == b@[k],
    {
        if a[i] != b[i] {
            return false;
        }
    }
    assert(a@ =~= b@);
    true
}

/// Whether the characters are those of `s`.
pub fn is_str(a: &[char], s: &str) -> (r: bool)
    ensures
        r == (a@ == s@),
{
    let c = chars_of(s);
    same_chars(a, &c)
}

/// The characters of `s` before the first `c`.
fn until_chars(s: &[char], c: char) -> (r: Vec<char>)
    ensures
        r@ == until(s@, c),
{
    match find_char(s, c) {
        Some(i) => {
            let r = slice_chars(s, 0, i);
            assert(r@ =~= s@.take(i as int));
            r
        },
        None => slice_chars(s, 0, s.len()),
    }
}

/// A property name with an optional `[index]`.
pub fn name_index(t: &[char]) -> (r: Result<(Vec<char>, usize), TextError>)
    ensures
        match r {
            Ok((n, i)) => name_and_index(t@) == Ok::<(Seq<char>, usize), TextError>((n@, i)),
            Err(e) => name_and_index(t@) == Err::<(Seq<char>, usize), TextError>(e),
        },
{
    reveal(name_and_index);
    let name = until_chars(t, '[');
    match find_char(t, '[') {
        None => {
            assert(from_char(t@, '[') =~= Seq::<char>::empty());
            Ok((name, 0))
        },
        Some(i) => {
            assert(i < t.len());
            let rest = slice_chars(t, i + 1, t.len());
            assert(from_char(t@, '[').len() > 0);
            assert(rest@ =~= from_char(t@, '[').drop_first());
            let digits = until_chars(&rest, ']');
            match parse_unsigned_chars(&digits, 10, usize::MAX as u64) {
                Some(v) => Ok((name, v as usize)),
                None => Err(TextError::InvalidNumber),
            }
        },
    }
}
/// A plain string value.
pub fn read_string_value(v: &[char]) -> (r: Result<Vec<char>, TextError>)
    ensures
        match r {
            Ok(s) => string_value(v@) == Ok::<Seq<char>, TextError>(s@),
            Err(e) => string_value(v@) == Err::<Seq<char>, TextError>(e),
        },
{
    reveal(string_value);
    proof {
        reveal_strlit("\\n");
        reveal_strlit("\n");
    }
    assert("\\n"@ =~= seq!['\\', 'n']);
    assert("\n"@ =~= seq!['\n']);
    if starts_with_char(v, '"') {
        if !crate::chars::ends_with_char(v, '"') {
            return Err(TextError::UnclosedString);
        }
        let n = v.len();
        if n < 2 {
            return Err(TextError::UnclosedString);
        }
        let inner = slice_chars(v, 1, n - 1);
        assert(inner@ =~= v@.subrange(1, n - 1));
        Ok(replace_chars(&inner, "\\n", "\n"))
    } else {
        Ok(replace_chars(v, "\\n", "\n"))
    }
}

/// The kind that a type name denotes.
fn kind_of_chars(t: &[char]) -> (k: PropertyKind)
    ensures
        k == kind_of(t@),
{
    if is_str(t, "ArrayProperty") {
        PropertyKind::ArrayProperty
    } else if is_str(t, "BoolProperty") {
        PropertyKind::BoolProperty
    } else if is_str(t, "ByteProperty") {
        PropertyKind::ByteProperty
    } else if is_str(t, "EnumProperty") {
        PropertyKind::EnumProperty
    } else if is_str(t, "StructProperty") {
        PropertyKind::StructProperty
    } else if is_str(t, "FloatProperty") {
        PropertyKind::FloatProperty
    } else if is_str(t, "StrProperty") {
        PropertyKind::StrProperty
    } else if is_str(t, "MapProperty") {
        PropertyKind::MapProperty
    } else if is_str(t, "NameProperty") {
        PropertyKind::NameProperty
    } else if is_str(t, "UInt16Property") {
        PropertyKind::UInt16Property
    } else if is_str(t, "UInt32Property") {
        PropertyKind::UInt32Property
    } else if is_str(t, "Int8Property") {
        PropertyKind::Int8Property
    } else if is_str(t, "Int16Property") {
        PropertyKind::Int16Property
    } else if is_str(t, "IntProperty") {
        PropertyKind::IntProperty
    } else {
        PropertyKind::Other
    }
}

/// The model of a value reader's result.
pub open spec fn value_res(r: Result<(UObjectPropertyData, UObjectPropertyMetadata, usize), TextError>) -> Result<
    (DataModel, MetadataModel, int),
    TextError,
> {
    match r {
        Ok((d, m, p)) => Ok((d@, m@, p as int)),
        Err(e) => Err(e),
    }
}

/// The text after the first space.
fn after_space_chars(v: &[char]) -> (r: Option<Vec<char>>)
    ensures
        r matches Some(x) ==> after_space(v@) == Some(x@),
        r is None ==> after_space(v@) is None,
{
    match split_once_chars(v, ' ') {
        Some((_, b)) => Some(b),
        None => None,
    }
}

/// An integer value tagged with its type.
fn read_tagged_int(v: &[char], k: PropertyKind, pos: usize) -> (r: Result<
    (UObjectPropertyData, UObjectPropertyMetadata, usize),
    TextError,
>)
    ensures
        value_res(r) == tagged_int(v@, k, pos as int),
        r matches Ok((_, _, p)) ==> p == pos,
{
    reveal(tagged_int);
    let x = match after_space_chars(v) {
        None => {
            return Err(TextError::MissingParameter);
        },
        Some(x) => x,
    };
    let d = match k {
        PropertyKind::UInt16Property => match parse_unsigned_chars(&x, 10, 0xFFFF) {
            Some(n) => Some(UObjectPropertyData::UInt16(n as u16)),
            None => None,
        },
        PropertyKind::UInt32Property => match parse_unsigned_chars(&x, 10, 0xFFFF_FFFF) {
            Some(n) => Some(UObjectPropertyData::UInt32(n as u32)),
            None => None,
        },
        PropertyKind::Int8Property => match parse_signed_chars(&x, 10, -0x80, 0x7F) {
            Some(n) => Some(UObjectPropertyData::Int8(n as i8)),
            None => None,
        },
        PropertyKind::Int16Property => match parse_signed_chars(&x, 10, -0x8000, 0x7FFF) {
            Some(n) => Some(UObjectPropertyData::Int16(n as i16)),
            None => None,
        },
        _ => match parse_signed_chars(&x, 10, -0x8000_0000, 0x7FFF_FFFF) {
            Some(n) => Some(UObjectPropertyData::Int32(n as i32)),
            None => None,
        },
    };
    match d {
        Some(d) => Ok((d, UObjectPropertyMetadata::Empty, pos)),
        None => Err(TextError::InvalidNumber),
    }
}

/// A value that takes no further lines, from its trimmed text.
#[verifier::spinoff_prover]
#[verifier::rlimit(60)]
fn read_scalar(fl: &[(String, Option<u32>)], v: &[char], pos: usize) -> (r: Result<
    (UObjectPropertyData, UObjectPropertyMetadata, usize),
    TextError,
>)
    ensures
        value_res(r) == scalar_value(table_view(fl@), v@, pos as int),
        r matches Ok((_, _, p)) ==> p == pos,
{
    reveal(scalar_value);
    if starts_with_str(v, "!u16") {
        read_tagged_int(v, PropertyKind::UInt16Property, pos)
    } else if starts_with_str(v, "!u32") {
        read_tagged_int(v, PropertyKind::UInt32Property, pos)
    } else if starts_with_str(v, "!i8") {
        read_tagged_int(v, PropertyKind::Int8Property, pos)
    } else if starts_with_str(v, "!i16") {
        read_tagged_int(v, PropertyKind::Int16Property, pos)
    } else if starts_with_str(v, "!i32") {
        read_tagged_int(v, PropertyKind::IntProperty, pos)
    } else if starts_with_str(v, "!ByteProperty") {
        let w = words_of(v);
        if w.len() < 4 {
            return Err(TextError::MissingParameter);
        }
        let b = parse_unsigned_chars(&w[3], 16, 0xFF);
        let e = parse_unsigned_chars(&w[1], 16, 0xFFFF_FFFF_FFFF_FFFF);
        let x = parse_unsigned_chars(&w[2], 16, 0xFF);
        match (b, e, x) {
            (Some(b), Some(e), Some(x)) => Ok(
                (
                    UObjectPropertyData::Byte(b as u8),
                    UObjectPropertyMetadata::Byte(e, x as u8),
                    pos,
                ),
            ),
            _ => Err(TextError::InvalidNumber),
        }
    } else if starts_with_str(v, "!EnumProperty") {
        let w = words_of(v);
        if w.len() < 3 {
            return Err(TextError::MissingParameter);
        }
        proof {
            reveal_strlit("->");
        }
        let val = replace_chars(&w[2], "->", "::");
        Ok(
            (
                UObjectPropertyData::Enum(string_of(&val)),
                UObjectPropertyMetadata::Enum(string_of(&w[1])),
                pos,
            ),
        )
    } else if starts_with_str(v, "!utf16") {
        match after_space_chars(v) {
            None => Err(TextError::MissingParameter),
            Some(x) => {
                proof {
                    reveal_strlit("\\n");
                }
                assert("\\n"@ =~= seq!['\\', 'n']);
                assert("\n"@ =~= seq!['\n']) by {
                    reveal_strlit("\n");
                }
                let u = replace_chars(&x, "\\n", "\n");
                Ok((UObjectPropertyData::StringUtf16(string_of(&u)), UObjectPropertyMetadata::Empty, pos))
            },
        }
    } else if starts_with_str(v, "!EmptyString") {
        let empty: Vec<char> = Vec::new();
        assert(empty@ =~= Seq::<char>::empty());
        Ok((UObjectPropertyData::String(string_of(&empty)), UObjectPropertyMetadata::Empty, pos))
    } else if starts_with_str(v, "!name") {
        match after_space_chars(v) {
            None => Err(TextError::MissingParameter),
            Some(x) => Ok((UObjectPropertyData::Name(string_of(&x)), UObjectPropertyMetadata::Empty, pos)),
        }
    } else {
        match lookup_float(fl, v) {
            Some(b) => Ok((UObjectPropertyData::Float(b), UObjectPropertyMetadata::Empty, pos)),
            None => if is_str(v, "true") {
                Ok((UObjectPropertyData::Bool, UObjectPropertyMetadata::Bool(true), pos))
            } else if is_str(v, "false") {
                Ok((UObjectPropertyData::Bool, UObjectPropertyMetadata::Bool(false), pos))
            } else {
                match read_string_value(v) {
                    Ok(s) => Ok((UObjectPropertyData::String(string_of(&s)), UObjectPropertyMetadata::Empty, pos)),
                    Err(e) => Err(e),
                }
            },
        }
    }
}

/// The base64 text of a word, decoded.
fn decode_word(w: &[char]) -> (r: Option<Vec<u8>>)
    ensures
        r matches Some(b) ==> crate::b64::base64_decoded(encode_utf8(w@)) == Some(b@),
        r is None ==> crate::b64::base64_decoded(encode_utf8(w@)) is None,
{
    let s = string_of(w);
    base64_decode(s.as_str().as_bytes())
}

/// The header of a struct value.
fn read_struct_head(v: &[char]) -> (r: Result<(UObjectPropertyMetadata, Vec<u8>), TextError>)
    ensures
        match r {
            Ok((m, raw)) => struct_head(v@) == Ok::<(MetadataModel, Seq<u8>), TextError>((m@, raw@)),
            Err(e) => struct_head(v@) == Err::<(MetadataModel, Seq<u8>), TextError>(e),
        },
{
    reveal(struct_head);
    if v.len() == 0 {
        return Ok((UObjectPropertyMetadata::Empty, Vec::new()));
    }
    let w = words_of(v);
    if w.len() < 2 {
        return Err(TextError::MissingParameter);
    }
    let meta = match decode_word(&w[1]) {
        None => {
            return Err(TextError::InvalidBase64);
        },
        Some(m) => m,
    };
    if w.len() < 3 {
        return Ok((UObjectPropertyMetadata::Struct(meta), Vec::new()));
    }
    match decode_word(&w[2]) {
        None => Err(TextError::InvalidBase64),
        Some(raw) => Ok((UObjectPropertyMetadata::Struct(meta), raw)),
    }
}

/// A map key of the map's key type.
fn read_map_key(fl: &[(String, Option<u32>)], key: &[char], key_type: &[char]) -> (r: Result<
    UObjectPropertyData,
    TextError,
>)
    ensures
        match r {
            Ok(d) => map_key(table_view(fl@), key@, key_type@) == Ok::<DataModel, TextError>(d@),
            Err(e) => map_key(table_view(fl@), key@, key_type@) == Err::<DataModel, TextError>(e),
        },
{
    reveal(map_key);
    match kind_of_chars(key_type) {
        PropertyKind::IntProperty => match parse_signed_chars(key, 10, -0x8000_0000, 0x7FFF_FFFF) {
            Some(n) => Ok(UObjectPropertyData::Int32(n as i32)),
            None => Err(TextError::InvalidNumber),
        },
        PropertyKind::UInt16Property => match parse_unsigned_chars(key, 10, 0xFFFF) {
            Some(n) => Ok(UObjectPropertyData::UInt16(n as u16)),
            None => Err(TextError::InvalidNumber),
        },
        PropertyKind::StrProperty => Ok(UObjectPropertyData::String(string_of(key))),
        PropertyKind::FloatProperty => match lookup_float(fl, key) {
            Some(b) => Ok(UObjectPropertyData::Float(b)),
            None => Err(TextError::InvalidFloat),
        },
        PropertyKind::ByteProperty => match parse_unsigned_chars(key, 16, 0xFF) {
            Some(n) => Ok(UObjectPropertyData::Byte(n as u8)),
            None => Err(TextError::InvalidNumber),
        },
        PropertyKind::EnumProperty => {
            proof {
                reveal_strlit("->");
            }
            let e = replace_chars(key, "->", "::");
            Ok(UObjectPropertyData::Enum(string_of(&e)))
        },
        _ => Err(TextError::UnknownKeyType),
    }
}

/// The `name` and `type` lines of an array's item schema.
fn read_schema(ls: &Vec<Vec<char>>, pos: usize, ind: usize) -> (r: Result<(UObjectPropertyHeader, usize), TextError>)
    requires
        pos <= ls@.len(),
        ind + 6 <= usize::MAX,
    ensures
        match r {
            Ok((h, p)) => parse_schema(lines_view(ls@), pos as int, ind as nat) == Ok::<(HeaderModel, int), TextError>(
                (h@, p as int),
            ) && pos < p <= ls@.len(),
            Err(e) => parse_schema(lines_view(ls@), pos as int, ind as nat) == Err::<(HeaderModel, int), TextError>(e),
        },
{
    let ghost lv = lines_view(ls@);
    let mut name: Option<Vec<char>> = None;
    let mut prop_type: Option<Vec<char>> = None;
    let mut p = pos;
    let mut k: usize = 2;
    while k > 0
        invariant
            lv == lines_view(ls@),
            pos <= p <= ls@.len(),
            k < 2 ==> pos < p,
            k <= 2,
            ind + 6 <= usize::MAX,
            schema_fields(lv, pos as int, ind as nat, 2, None, None) == schema_fields(
                lv,
                p as int,
                ind as nat,
                k as nat,
                opt_view(name),
                opt_view(prop_type),
            ),
        decreases k,
    {
        let j = next_nonblank(ls, p);
        let line = get_line(ls, j);
        if !check_indent(&line, ind + 4) {
            return Err(TextError::ArrayLayout);
        }
        match split_once_chars(&line, ':') {
            None => {
                return Err(TextError::ArrayLayout);
            },
            Some((a, b)) => {
                let f = trim_chars(&a);
                if is_str(&f, "name") {
                    name = Some(trim_chars(&b));
                } else if is_str(&f, "type") {
                    prop_type = Some(trim_chars(&b));
                } else {
                    return Err(TextError::UnknownField);
                }
                assert(j < ls.len());
                p = j + 1;
            },
        }
        k = k - 1;
    }
    match (name, prop_type) {
        (Some(n), Some(t)) => {
            let h = UObjectPropertyHeader { name: string_of(&n), prop_type: string_of(&t), arr_index: 0 };
            Ok((h, p))
        },
        _ => Err(TextError::MissingField),
    }
}

/// The model of an optional character vector.
pub open spec fn opt_view(o: Option<Vec<char>>) -> Option<Seq<char>> {
    match o {
        Some(v) => Some(v@),
        None => None,
    }
}

/// The reading budget: indentation grows by at most eight for each line
/// read, and must stay within a `usize`.
pub open spec fn fits(len: int, pos: int, ind: int, slack: int) -> bool {
    ind + 8 * (len - pos) + slack <= usize::MAX
}

/// The model of a property reader's result.
pub open spec fn prop_res(r: Result<(Option<UObjectProperty>, usize), TextError>) -> Result<
    (Option<PropertyModel>, int),
    TextError,
> {
    match r {
        Ok((Some(p), q)) => Ok((Some(p@), q as int)),
        Ok((None, q)) => Ok((None, q as int)),
        Err(e) => Err(e),
    }
}

/// The model of a property-list reader's result.
pub open spec fn props_res(r: Result<(Vec<UObjectProperty>, usize), TextError>) -> Result<
    (Seq<PropertyModel>, int),
    TextError,
> {
    match r {
        Ok((v, q)) => Ok((properties_model(v@), q as int)),
        Err(e) => Err(e),
    }
}

/// A list result with `first` put in front of its list.
pub open spec fn before<T>(first: Seq<T>, r: Result<(Seq<T>, int), TextError>) -> Result<(Seq<T>, int), TextError> {
    match r {
        Ok((rest, q)) => Ok((first + rest, q)),
        Err(e) => Err(e),
    }
}

/// Map entries from their key-value pairs and the values' metadata.
pub open spec fn sets_view(
    pairs: Seq<(UObjectPropertyData, UObjectPropertyData)>,
    metas: Seq<UObjectPropertyMetadata>,
) -> Seq<(DataModel, DataModel, MetadataModel)> {
    Seq::new(pairs.len(), |i: int| (pairs[i].0@, pairs[i].1@, metas[i]@))
}

/// Array items from their values and metadata.
pub open spec fn values_view(values: Seq<UObjectPropertyData>, metas: Seq<UObjectPropertyMetadata>) -> Seq<
    (DataModel, MetadataModel),
> {
    Seq::new(values.len(), |i: int| (values[i]@, metas[i]@))
}

/// The model of an optional tag.
pub open spec fn opt_header(o: Option<UObjectPropertyHeader>) -> Option<HeaderModel> {
    match o {
        Some(h) => Some(h@),
        None => None,
    }
}

impl UObjectPropertyData {
    /// Reads the value whose text on its property's line is `val`; structs,
    /// maps and arrays continue on the lines from `pos`, indented beyond
    /// `expected_indent_level`. Returns the value, its metadata, and the
    /// position after it.
    pub fn from_string(
        ls: &Vec<Vec<char>>,
        fl: &[(String, Option<u32>)],
        val: &[char],
        pos: usize,
        expected_indent_level: usize,
    ) -> (r: Result<(UObjectPropertyData, UObjectPropertyMetadata, usize), TextError>)
        requires
            pos <= ls@.len(),
            fits(ls@.len() as int, pos as int, expected_indent_level as int, 8),
        ensures
            value_res(r) == parse_value(lines_view(ls@), table_view(fl@), val@, pos as int, expected_indent_level as nat),
            r matches Ok((_, _, p)) ==> pos <= p <= ls@.len(),
        decreases ls@.len() - pos, 3int,
    {
        let ind = expected_indent_level;
        let v = trim_chars(val);
        if v.len() == 0 || starts_with_str(&v, "!struct") {
            let (meta, raw) = read_struct_head(&v)?;
            let (props, p) = read_props(ls, fl, pos, ind + 2)?;
            let d = UObjectPropertyData::Struct(props, raw);
            assert(d@->Struct_0 =~= properties_model(props@));
            Ok((d, meta, p))
        } else if starts_with_str(&v, "!Map") {
            read_map(ls, fl, pos, ind)
        } else if starts_with_str(&v, "!Array") {
            read_array(ls, fl, pos, ind)
        } else {
            read_scalar(fl, &v, pos)
        }
    }
}

impl UObjectProperty {
    /// Reads a property at the next non-blank line from `pos` if it is
    /// indented by `expected_indent_level`; otherwise returns `None` and the
    /// position of that line, left unread.
    pub fn from_string(ls: &Vec<Vec<char>>, fl: &[(String, Option<u32>)], pos: usize, expected_indent_level: usize) -> (r: Result<
        (Option<UObjectProperty>, usize),
        TextError,
    >)
        requires
            pos <= ls@.len(),
            fits(ls@.len() as int, pos as int, expected_indent_level as int, 6),
        ensures
            prop_res(r) == parse_prop(lines_view(ls@), table_view(fl@), pos as int, expected_indent_level as nat),
            r matches Ok((Some(_), p)) ==> pos < p <= ls@.len(),
            r matches Ok((None, p)) ==> pos <= p <= ls@.len(),
        decreases ls@.len() - pos, 1int,
    {
        let ind = expected_indent_level;
        let j = next_nonblank(ls, pos);
        let line = get_line(ls, j);
        if line.len() == 0 || !check_indent(&line, ind) {
            return Ok((None, j));
        }
        let (a, b) = match split_once_chars(&line, ':') {
            None => {
                return Err(TextError::MissingColon);
            },
            Some(x) => x,
        };
        let t = trim_chars(&a);
        let (name, idx) = name_index(&t)?;
        assert(j < ls.len());
        let (d, m, p) = UObjectPropertyData::from_string(ls, fl, &b, j + 1, ind)?;
        let ty = d.get_string_type();
        let h = UObjectPropertyHeader { name: string_of(&name), prop_type: ty.to_owned(), arr_index: idx };
        Ok((Some(UObjectProperty { header: h, metadata: m, data: d }), p))
    }
}

/// Reads properties indented by `ind` up to the first line that is not one.
#[verifier::rlimit(100)]
pub fn read_props(ls: &Vec<Vec<char>>, fl: &[(String, Option<u32>)], pos: usize, ind: usize) -> (r: Result<
    (Vec<UObjectProperty>, usize),
    TextError,
>)
    requires
        pos <= ls@.len(),
        fits(ls@.len() as int, pos as int, ind as int, 6),
    ensures
        props_res(r) == parse_props(lines_view(ls@), table_view(fl@), pos as int, ind as nat),
        r matches Ok((_, p)) ==> pos <= p <= ls@.len(),
    decreases ls@.len() - pos, 2int,
{
    let ghost lv = lines_view(ls@);
    let ghost ft = table_view(fl@);
    let mut acc: Vec<UObjectProperty> = Vec::new();
    let mut p = pos;
    assert(properties_model(acc@) + Seq::<PropertyModel>::empty() =~= Seq::<PropertyModel>::empty());
    assert(before(properties_model(acc@), parse_props(lv, ft, p as int, ind as nat)) == parse_props(lv, ft, pos as int, ind as nat)) by {
        match parse_props(lv, ft, p as int, ind as nat) {
            Ok((rest, q)) => {
                assert(properties_model(acc@) + rest =~= rest);
            },
            Err(_) => {},
        }
    }
    loop
        invariant
            lv == lines_view(ls@),
            ft == table_view(fl@),
            pos <= p <= ls@.len(),
            fits(ls@.len() as int, pos as int, ind as int, 6),
            parse_props(lv, ft, pos as int, ind as nat) == before(
                properties_model(acc@),
                parse_props(lv, ft, p as int, ind as nat),
            ),
        decreases ls@.len() - p,
    {
        match UObjectProperty::from_string(ls, fl, p, ind) {
            Err(e) => {
                return Err(e);
            },
            Ok((None, q)) => {
                assert(properties_model(acc@) + Seq::<PropertyModel>::empty() =~= properties_model(acc@));
                return Ok((acc, q));
            },
            Ok((Some(prop), q)) => {
                let ghost old_acc = properties_model(acc@);
                let ghost pm = prop@;
                acc.push(prop);
                assert(properties_model(acc@) =~= old_acc.push(pm));
                assert(before(properties_model(acc@), parse_props(lv, ft, q as int, ind as nat)) == before(
                    old_acc,
                    parse_props(lv, ft, p as int, ind as nat),
                )) by {
                    match parse_props(lv, ft, q as int, ind as nat) {
                        Ok((rest, r)) => {
                            assert(old_acc.push(pm) + rest =~= old_acc + (seq![pm] + rest));
                        },
                        Err(_) => {},
                    }
                }
                p = q;
            },
        }
    }
}

/// Whether every map value has the type `vt`.
fn values_have_type(pairs: &Vec<(UObjectPropertyData, UObjectPropertyData)>, vt: &[char]) -> (b: bool)
    ensures
        b == forall|i: int| 0 <= i < pairs@.len() ==> spec_type_name((#[trigger] pairs@[i]).1@) == vt@,
{
    let n = pairs.len();
    for i in 0..n
        invariant
            n == pairs@.len(),
            forall|k: int| 0 <= k < i ==> spec_type_name((#[trigger] pairs@[k]).1@) == vt@,
    {
        if !is_str(vt, pairs[i].1.get_string_type()) {
            return false;
        }
    }
    true
}

/// Whether every array item has the type `t`.
fn items_have_type(values: &Vec<UObjectPropertyData>, t: &[char]) -> (b: bool)
    ensures
        b == forall|i: int| 0 <= i < values@.len() ==> spec_type_name((#[trigger] values@[i])@) == t@,
{
    let n = values.len();
    for i in 0..n
        invariant
            n == values@.len(),
            forall|k: int| 0 <= k < i ==> spec_type_name((#[trigger] values@[k])@) == t@,
    {
        if !is_str(t, values[i].get_string_type()) {
            return false;
        }
    }
    true
}

/// Reads map entries `- key: value` indented by `ind + 4`.
#[verifier::rlimit(100)]
fn read_map_entries(
    ls: &Vec<Vec<char>>,
    fl: &[(String, Option<u32>)],
    pos: usize,
    ind: usize,
    key_type: &[char],
) -> (r: Result<(Vec<(UObjectPropertyData, UObjectPropertyData)>, Vec<UObjectPropertyMetadata>, usize), TextError>)
    requires
        pos <= ls@.len(),
        fits(ls@.len() as int, pos as int, ind as int, 6),
    ensures
        match r {
            Ok((pairs, metas, p)) => {
                &&& pairs@.len() == metas@.len()
                &&& map_entries(lines_view(ls@), table_view(fl@), pos as int, ind as nat, key_type@)
                    == Ok::<(Seq<(DataModel, DataModel, MetadataModel)>, int), TextError>(
                    (sets_view(pairs@, metas@), p as int),
                )
                &&& pos <= p <= ls@.len()
            },
            Err(e) => map_entries(lines_view(ls@), table_view(fl@), pos as int, ind as nat, key_type@)
                == Err::<(Seq<(DataModel, DataModel, MetadataModel)>, int), TextError>(e),
        },
    decreases ls@.len() - pos, 0int,
{
    let ghost lv = lines_view(ls@);
    let ghost ft = table_view(fl@);
    let mut pairs: Vec<(UObjectPropertyData, UObjectPropertyData)> = Vec::new();
    let mut metas: Vec<UObjectPropertyMetadata> = Vec::new();
    let mut p = pos;
    assert(before(sets_view(pairs@, metas@), map_entries(lv, ft, p as int, ind as nat, key_type@)) == map_entries(lv, ft, pos as int, ind as nat, key_type@)) by {
        match map_entries(lv, ft, p as int, ind as nat, key_type@) {
            Ok((rest, q)) => {
                assert(sets_view(pairs@, metas@) + rest =~= rest);
            },
            Err(_) => {},
        }
    }
    loop
        invariant
            lv == lines_view(ls@),
            ft == table_view(fl@),
            pos <= p <= ls@.len(),
            pairs@.len() == metas@.len(),
            fits(ls@.len() as int, pos as int, ind as int, 6),
            map_entries(lv, ft, pos as int, ind as nat, key_type@) == before(
                sets_view(pairs@, metas@),
                map_entries(lv, ft, p as int, ind as nat, key_type@),
            ),
        decreases ls@.len() - p,
    {
        let j = next_nonblank(ls, p);
        let line = get_line(ls, j);
        let tl = trim_chars(&line);
        if !starts_with_char(&tl, '-') || !check_indent(&line, ind + 4) {
            assert(sets_view(pairs@, metas@) + Seq::<(DataModel, DataModel, MetadataModel)>::empty() =~= sets_view(pairs@, metas@));
            return Ok((pairs, metas, j));
        }
        let rest = match split_once_chars(&line, '-') {
            None => {
                return Err(TextError::MapEntryFormat);
            },
            Some((_, rest)) => rest,
        };
        let (kk, vv) = match split_once_chars(&rest, ':') {
            None => {
                return Err(TextError::MapEntryFormat);
            },
            Some(x) => x,
        };
        let key = read_map_key(fl, &trim_chars(&kk), key_type)?;
        assert(j < ls.len());
        let (item, meta, q) = UObjectPropertyData::from_string(ls, fl, &vv, j + 1, ind + 6)?;
        let ghost old_sets = sets_view(pairs@, metas@);
        let ghost e = (key@, item@, meta@);
        pairs.push((key, item));
        metas.push(meta);
        assert(sets_view(pairs@, metas@) =~= old_sets.push(e));
        assert(before(sets_view(pairs@, metas@), map_entries(lv, ft, q as int, ind as nat, key_type@)) == before(
            old_sets,
            map_entries(lv, ft, p as int, ind as nat, key_type@),
        )) by {
            match map_entries(lv, ft, q as int, ind as nat, key_type@) {
                Ok((more, r)) => {
                    assert(old_sets.push(e) + more =~= old_sets + (seq![e] + more));
                },
                Err(_) => {},
            }
        }
        p = q;
    }
}

/// Reads a map: three field lines indented by `ind + 2`.
/// The state of a map being read: key type, value type, entries (pairs
/// and the values' metadata), and position.
pub struct MapState {
    pub key_type: Option<Vec<char>>,
    pub val_type: Option<Vec<char>>,
    pub pairs: Vec<(UObjectPropertyData, UObjectPropertyData)>,
    pub metas: Vec<UObjectPropertyMetadata>,
    pub pos: usize,
}

/// `map_fields` from a state, with `k` fields left to read.
pub open spec fn map_rest(ls: Seq<Seq<char>>, fl: Seq<(Seq<char>, Option<u32>)>, st: MapState, ind: nat, k: nat) -> Result<
    (Option<Seq<char>>, Option<Seq<char>>, Seq<(DataModel, DataModel, MetadataModel)>, int),
    TextError,
> {
    map_fields(
        ls,
        fl,
        st.pos as int,
        ind,
        k,
        opt_view(st.key_type),
        opt_view(st.val_type),
        sets_view(st.pairs@, st.metas@),
    )
}

/// Reads one map field line.
#[verifier::rlimit(100)]
fn map_step(ls: &Vec<Vec<char>>, fl: &[(String, Option<u32>)], st: MapState, ind: usize, k: usize) -> (r: Result<
    MapState,
    TextError,
>)
    requires
        k > 0,
        st.pos <= ls@.len(),
        st.pairs@.len() == st.metas@.len(),
        fits(ls@.len() as int, st.pos as int, ind as int, 8),
    ensures
        match r {
            Ok(next) => {
                &&& map_rest(lines_view(ls@), table_view(fl@), st, ind as nat, k as nat) == map_rest(
                    lines_view(ls@),
                    table_view(fl@),
                    next,
                    ind as nat,
                    (k - 1) as nat,
                )
                &&& st.pos < next.pos <= ls@.len()
                &&& next.pairs@.len() == next.metas@.len()
            },
            Err(e) => map_rest(lines_view(ls@), table_view(fl@), st, ind as nat, k as nat) == Err::<
                (Option<Seq<char>>, Option<Seq<char>>, Seq<(DataModel, DataModel, MetadataModel)>, int),
                TextError,
            >(e),
        },
    decreases ls@.len() - st.pos, 1int,
{
    let MapState { key_type: mut kt, val_type: mut vt, mut pairs, mut metas, pos: p } = st;
    let j = next_nonblank(ls, p);
    let line = get_line(ls, j);
    if !check_indent(&line, ind + 2) {
        return Err(TextError::MapLayout);
    }
    let (a, b) = match split_once_chars(&line, ':') {
        None => {
            return Err(TextError::MapLayout);
        },
        Some(x) => x,
    };
    assert(j < ls.len());
    let f = trim_chars(&a);
    if is_str(&f, "key_type") {
        kt = Some(trim_chars(&b));
        Ok(MapState { key_type: kt, val_type: vt, pairs, metas, pos: j + 1 })
    } else if is_str(&f, "val_type") {
        vt = Some(trim_chars(&b));
        Ok(MapState { key_type: kt, val_type: vt, pairs, metas, pos: j + 1 })
    } else if is_str(&f, "map_data") {
        match (&kt, &vt) {
            (Some(ktv), Some(vtv)) => {
                let (mut more, mut more_metas, q) = read_map_entries(ls, fl, j + 1, ind, ktv)?;
                let ghost old_sets = sets_view(pairs@, metas@);
                let ghost new_sets = sets_view(more@, more_metas@);
                pairs.append(&mut more);
                metas.append(&mut more_metas);
                assert(sets_view(pairs@, metas@) =~= old_sets + new_sets);
                let ok = values_have_type(&pairs, vtv);
                let ghost all = sets_view(pairs@, metas@);
                if !ok {
                    proof {
                        let i = choose|i: int| 0 <= i < pairs@.len() && !(spec_type_name((#[trigger] pairs@[i]).1@) == vtv@);
                        assert(spec_type_name(all[i].1) != vtv@);
                    }
                    return Err(TextError::TypeMismatch);
                }
                assert(!exists|i: int| 0 <= i < all.len() && spec_type_name(#[trigger] all[i].1) != vtv@) by {
                    if exists|i: int| 0 <= i < all.len() && spec_type_name(#[trigger] all[i].1) != vtv@ {
                        let i = choose|i: int| 0 <= i < all.len() && spec_type_name(#[trigger] all[i].1) != vtv@;
                        assert(spec_type_name(pairs@[i].1@) == vtv@);
                    }
                }
                Ok(MapState { key_type: kt, val_type: vt, pairs, metas, pos: q })
            },
            _ => Err(TextError::FieldOrder),
        }
    } else {
        Err(TextError::UnknownField)
    }
}

/// Reads a map: three field lines indented by `ind + 2`.
#[verifier::rlimit(100)]
fn read_map(ls: &Vec<Vec<char>>, fl: &[(String, Option<u32>)], pos: usize, ind: usize) -> (r: Result<
    (UObjectPropertyData, UObjectPropertyMetadata, usize),
    TextError,
>)
    requires
        pos <= ls@.len(),
        fits(ls@.len() as int, pos as int, ind as int, 8),
    ensures
        value_res(r) == parse_map(lines_view(ls@), table_view(fl@), pos as int, ind as nat),
        r matches Ok((_, _, p)) ==> pos <= p <= ls@.len(),
    decreases ls@.len() - pos, 2int,
{
    let ghost lv = lines_view(ls@);
    let ghost ft = table_view(fl@);
    let mut st = MapState { key_type: None, val_type: None, pairs: Vec::new(), metas: Vec::new(), pos };
    let mut k: usize = 3;
    assert(sets_view(st.pairs@, st.metas@) =~= Seq::<(DataModel, DataModel, MetadataModel)>::empty());
    while k > 0
        invariant
            lv == lines_view(ls@),
            ft == table_view(fl@),
            pos <= st.pos <= ls@.len(),
            k <= 3,
            st.pairs@.len() == st.metas@.len(),
            fits(ls@.len() as int, pos as int, ind as int, 8),
            map_fields(lv, ft, pos as int, ind as nat, 3, None, None, seq![]) == map_rest(lv, ft, st, ind as nat, k as nat),
        decreases k,
    {
        st = map_step(ls, fl, st, ind, k)?;
        k = k - 1;
    }
    let MapState { key_type, val_type, pairs, metas, pos: p } = st;
    if pairs.len() == 0 {
        return Err(TextError::MissingMapData);
    }
    match (key_type, val_type) {
        (Some(kv), Some(vv)) => {
            let d = UObjectPropertyData::MapEntries(pairs);
            proof {
                let sets = sets_view(pairs@, metas@);
                assert(d@->MapEntries_0 =~= sets.map(|i: int, s: (DataModel, DataModel, MetadataModel)| (s.0, s.1)));
            }
            Ok((d, UObjectPropertyMetadata::MapTypes(string_of(&kv), string_of(&vv)), p))
        },
        _ => Err(TextError::MissingField),
    }
}

/// Reads array items `- index: value` indented by `ind + 2`.
#[verifier::rlimit(100)]
fn read_array_items(ls: &Vec<Vec<char>>, fl: &[(String, Option<u32>)], pos: usize, ind: usize) -> (r: Result<
    (Vec<UObjectPropertyData>, Vec<UObjectPropertyMetadata>, usize),
    TextError,
>)
    requires
        pos <= ls@.len(),
        fits(ls@.len() as int, pos as int, ind as int, 4),
    ensures
        match r {
            Ok((values, metas, p)) => {
                &&& values@.len() == metas@.len()
                &&& array_items(lines_view(ls@), table_view(fl@), pos as int, ind as nat)
                    == Ok::<(Seq<(DataModel, MetadataModel)>, int), TextError>(
                    (values_view(values@, metas@), p as int),
                )
                &&& pos <= p <= ls@.len()
            },
            Err(e) => array_items(lines_view(ls@), table_view(fl@), pos as int, ind as nat)
                == Err::<(Seq<(DataModel, MetadataModel)>, int), TextError>(e),
        },
    decreases ls@.len() - pos, 0int,
{
    let ghost lv = lines_view(ls@);
    let ghost ft = table_view(fl@);
    let mut values: Vec<UObjectPropertyData> = Vec::new();
    let mut metas: Vec<UObjectPropertyMetadata> = Vec::new();
    let mut p = pos;
    assert(before(values_view(values@, metas@), array_items(lv, ft, p as int, ind as nat)) == array_items(lv, ft, pos as int, ind as nat)) by {
        match array_items(lv, ft, p as int, ind as nat) {
            Ok((rest, q)) => {
                assert(values_view(values@, metas@) + rest =~= rest);
            },
            Err(_) => {},
        }
    }
    loop
        invariant
            lv == lines_view(ls@),
            ft == table_view(fl@),
            pos <= p <= ls@.len(),
            values@.len() == metas@.len(),
            fits(ls@.len() as int, pos as int, ind as int, 4),
            array_items(lv, ft, pos as int, ind as nat) == before(
                values_view(values@, metas@),
                array_items(lv, ft, p as int, ind as nat),
            ),
        decreases ls@.len() - p,
    {
        let j = next_nonblank(ls, p);
        let line = get_line(ls, j);
        let tl = trim_chars(&line);
        if !starts_with_char(&tl, '-') || !check_indent(&line, ind + 2) {
            assert(values_view(values@, metas@) + Seq::<(DataModel, MetadataModel)>::empty() =~= values_view(values@, metas@));
            return Ok((values, metas, j));
        }
        let vv = match split_once_chars(&line, ':') {
            None => {
                return Err(TextError::ArrayItemFormat);
            },
            Some((_, vv)) => vv,
        };
        assert(j < ls.len());
        let (d, m, q) = UObjectPropertyData::from_string(ls, fl, &vv, j + 1, ind + 4)?;
        let ghost old_items = values_view(values@, metas@);
        let ghost e = (d@, m@);
        values.push(d);
        metas.push(m);
        assert(values_view(values@, metas@) =~= old_items.push(e));
        assert(before(values_view(values@, metas@), array_items(lv, ft, q as int, ind as nat)) == before(
            old_items,
            array_items(lv, ft, p as int, ind as nat),
        )) by {
            match array_items(lv, ft, q as int, ind as nat) {
                Ok((more, r)) => {
                    assert(old_items.push(e) + more =~= old_items + (seq![e] + more));
                },
                Err(_) => {},
            }
        }
        p = q;
    }
}

/// Reads an array: its field lines indented by `ind + 2`.
/// The state of an array being read: field count, item type, schema, array
/// name, items (values and metadata), and position.
pub struct ArrayState {
    pub count: i128,
    pub item_type: Option<Vec<char>>,
    pub schema: Option<UObjectPropertyHeader>,
    pub array_name: Option<Vec<char>>,
    pub values: Vec<UObjectPropertyData>,
    pub metas: Vec<UObjectPropertyMetadata>,
    pub pos: usize,
}

/// `array_fields` from a state.
pub open spec fn array_rest(ls: Seq<Seq<char>>, fl: Seq<(Seq<char>, Option<u32>)>, st: ArrayState, ind: nat) -> Result<
    (Option<Seq<char>>, Option<HeaderModel>, Option<Seq<char>>, Seq<(DataModel, MetadataModel)>, int),
    TextError,
> {
    array_fields(
        ls,
        fl,
        st.pos as int,
        ind,
        st.count as int,
        opt_view(st.item_type),
        opt_header(st.schema),
        opt_view(st.array_name),
        values_view(st.values@, st.metas@),
    )
}

/// Reads one array field line.
#[verifier::rlimit(100)]
fn array_step(ls: &Vec<Vec<char>>, fl: &[(String, Option<u32>)], st: ArrayState, ind: usize) -> (r: Result<
    ArrayState,
    TextError,
>)
    requires
        st.count < 2,
        st.count > -0x1_0000_0000_0000_0000_0000,
        st.pos <= ls@.len(),
        st.values@.len() == st.metas@.len(),
        fits(ls@.len() as int, st.pos as int, ind as int, 8),
    ensures
        match r {
            Ok(next) => {
                &&& array_rest(lines_view(ls@), table_view(fl@), st, ind as nat) == array_rest(
                    lines_view(ls@),
                    table_view(fl@),
                    next,
                    ind as nat,
                )
                &&& st.pos < next.pos <= ls@.len()
                &&& next.count >= st.count - 1
                &&& next.count <= 2
                &&& next.values@.len() == next.metas@.len()
            },
            Err(e) => array_rest(lines_view(ls@), table_view(fl@), st, ind as nat) == Err::<
                (Option<Seq<char>>, Option<HeaderModel>, Option<Seq<char>>, Seq<(DataModel, MetadataModel)>, int),
                TextError,
            >(e),
        },
    decreases ls@.len() - st.pos, 1int,
{
    let ArrayState { count: i, mut item_type, mut schema, mut array_name, mut values, mut metas, pos: p } = st;
    let j = next_nonblank(ls, p);
    let line = get_line(ls, j);
    if !check_indent(&line, ind + 2) {
        return Err(TextError::ArrayLayout);
    }
    let (a, b) = match split_once_chars(&line, ':') {
        None => {
            return Err(TextError::ArrayLayout);
        },
        Some(x) => x,
    };
    assert(j < ls.len());
    let f = trim_chars(&a);
    if is_str(&f, "item_type") {
        let t = trim_chars(&b);
        let next = if is_str(&t, "StructProperty") {
            i - 1
        } else {
            i + 1
        };
        item_type = Some(t);
        Ok(ArrayState { count: next, item_type, schema, array_name, values, metas, pos: j + 1 })
    } else if is_str(&f, "item_schema") {
        let (h, q) = read_schema(ls, j + 1, ind)?;
        schema = Some(h);
        Ok(ArrayState { count: i + 1, item_type, schema, array_name, values, metas, pos: q })
    } else if is_str(&f, "array_name") {
        array_name = Some(trim_chars(&b));
        Ok(ArrayState { count: i + 1, item_type, schema, array_name, values, metas, pos: j + 1 })
    } else if is_str(&f, "items") {
        match &item_type {
            None => Err(TextError::FieldOrder),
            Some(t) => {
                let (mut more, mut more_metas, q) = read_array_items(ls, fl, j + 1, ind)?;
                let ghost old_items = values_view(values@, metas@);
                let ghost new_items = values_view(more@, more_metas@);
                values.append(&mut more);
                metas.append(&mut more_metas);
                assert(values_view(values@, metas@) =~= old_items + new_items);
                let ok = items_have_type(&values, t);
                let ghost all = values_view(values@, metas@);
                if !ok {
                    proof {
                        let x = choose|x: int| 0 <= x < values@.len() && !(spec_type_name((#[trigger] values@[x])@) == t@);
                        assert(spec_type_name(all[x].0) != t@);
                    }
                    return Err(TextError::TypeMismatch);
                }
                assert(!exists|x: int| 0 <= x < all.len() && spec_type_name(#[trigger] all[x].0) != t@) by {
                    if exists|x: int| 0 <= x < all.len() && spec_type_name(#[trigger] all[x].0) != t@ {
                        let x = choose|x: int| 0 <= x < all.len() && spec_type_name(#[trigger] all[x].0) != t@;
                        assert(spec_type_name(values@[x]@) == t@);
                    }
                }
                Ok(ArrayState { count: i + 1, item_type, schema, array_name, values, metas, pos: q })
            },
        }
    } else {
        Err(TextError::UnknownField)
    }
}

/// Reads an array: its field lines indented by `ind + 2`.
#[verifier::rlimit(100)]
fn read_array(ls: &Vec<Vec<char>>, fl: &[(String, Option<u32>)], pos: usize, ind: usize) -> (r: Result<
    (UObjectPropertyData, UObjectPropertyMetadata, usize),
    TextError,
>)
    requires
        pos <= ls@.len(),
        fits(ls@.len() as int, pos as int, ind as int, 8),
    ensures
        value_res(r) == parse_array(lines_view(ls@), table_view(fl@), pos as int, ind as nat),
        r matches Ok((_, _, p)) ==> pos <= p <= ls@.len(),
    decreases ls@.len() - pos, 2int,
{
    let ghost lv = lines_view(ls@);
    let ghost ft = table_view(fl@);
    let mut st = ArrayState {
        count: 0,
        item_type: None,
        schema: None,
        array_name: None,
        values: Vec::new(),
        metas: Vec::new(),
        pos,
    };
    assert(values_view(st.values@, st.metas@) =~= Seq::<(DataModel, MetadataModel)>::empty());
    while st.count < 2
        invariant
            lv == lines_view(ls@),
            ft == table_view(fl@),
            pos <= st.pos <= ls@.len(),
            st.count >= pos - st.pos,
            st.count <= 2,
            st.values@.len() == st.metas@.len(),
            fits(ls@.len() as int, pos as int, ind as int, 8),
            array_fields(lv, ft, pos as int, ind as nat, 0, None, None, None, seq![]) == array_rest(lv, ft, st, ind as nat),
        decreases ls@.len() - st.pos,
    {
        st = array_step(ls, fl, st, ind)?;
    }
    let ArrayState { count: _, item_type, schema, array_name, values, metas, pos: p } = st;
    proof {
        let items = values_view(values@, metas@);
        assert(items.map(|k: int, x: (DataModel, MetadataModel)| x.0) =~= crate::reader::items_model(values@));
    }
    match schema {
        Some(h) => match array_name {
            None => Err(TextError::MissingArrayName),
            Some(n) => match item_type {
                None => Err(TextError::MissingField),
                Some(t) => {
                    let d = UObjectPropertyData::Array(values, Some((h, string_of(&n))));
                    assert(d@->Array_0 =~= crate::reader::items_model(values@));
                    Ok((d, UObjectPropertyMetadata::Array(string_of(&t)), p))
                },
            },
        },
        None => match item_type {
            None => Err(TextError::MissingField),
            Some(t) => {
                let d = UObjectPropertyData::Array(values, None);
                assert(d@->Array_0 =~= crate::reader::items_model(values@));
                Ok((d, UObjectPropertyMetadata::Array(string_of(&t)), p))
            },
        },
    }
}

proof fn lemma_lines_len(t: Seq<char>)
    ensures
        lines(t).len() <= t.len(),
    decreases t.len(),
{
    if t.len() > 0 {
        match crate::chars::find(t, '\n') {
            Some(i) => {
                if 0 <= i < t.len() {
                    lemma_lines_len(t.skip(i + 1));
                }
            },
            None => {},
        }
    }
}

impl UObjectSummary {
    /// Reads a summary from its base64 text.
    pub fn from_string(s: &str) -> (r: Result<Self, TextError>)
        ensures
            match r {
                Ok(summary) => summary_from_text(s@) == Ok::<SummaryModel, TextError>(summary@),
                Err(e) => summary_from_text(s@) == Err::<SummaryModel, TextError>(e),
            },
    {
        let bytes = match base64_decode(s.as_bytes()) {
            None => {
                return Err(TextError::InvalidBase64);
            },
            Some(b) => b,
        };
        match UObjectSummary::from_buffer(bytes.as_slice(), 0) {
            Err(e) => Err(TextError::Binary(e)),
            Ok((summary, _)) => Ok(summary),
        }
    }
}

impl IoUObject {
    /// Reads an object from its text: a `summary:` line, a `contents:`
    /// line, and its properties, each indented by two spaces. `floats`
    /// gives, for value texts, what parsing them as an `f32` yields (the
    /// bit pattern, or `None` where they do not parse); a text missing from
    /// it does not parse as a float. `float_candidates` lists the texts that
    /// can be looked up.
    pub fn from_string(text: &str, floats: &[(String, Option<u32>)]) -> (r: Result<Self, TextError>)
        requires
            text@.len() <= usize::MAX / 16,
        ensures
            match r {
                Ok(o) => parse_object_text(lines(text@), table_view(floats@)) == Ok::<ObjectModel, TextError>(o@),
                Err(e) => parse_object_text(lines(text@), table_view(floats@)) == Err::<ObjectModel, TextError>(e),
            },
    {
        let chars = chars_of(text);
        let ls = split_lines(&chars);
        proof {
            lemma_lines_len(text@);
        }
        let first = get_line(&ls, 0);
        if !starts_with_str(&first, "summary:") {
            return Err(TextError::NoSummary);
        }
        let b = match split_once_chars(&first, ':') {
            None => {
                return Err(TextError::NoSummary);
            },
            Some((_, b)) => b,
        };
        let encoded = string_of(&trim_chars(&b));
        let summary = UObjectSummary::from_string(encoded.as_str())?;
        let second = get_line(&ls, 1);
        if !starts_with_str(&second, "contents:") {
            return Err(TextError::NoContents);
        }
        proof {
            reveal_strlit("contents:");
        }
        assert(ls@.len() >= 2);
        let (properties, _) = read_props(&ls, floats, 2, 2)?;
        let o = IoUObject { summary, properties };
        Ok(o)
    }
}

/// The texts that reading may look up in a float table, line by line: the
/// trimmed text after the first `:`, and the trimmed text between the
/// first `-` and the first `:` after it.
pub open spec fn line_candidates(line: Seq<char>) -> Seq<Seq<char>> {
    let value = match split_once(line, ':') {
        Some((_, b)) => seq![trim(b)],
        None => seq![],
    };
    let key = match split_once(line, '-') {
        Some((_, rest)) => match split_once(rest, ':') {
            Some((k, _)) => seq![trim(k)],
            None => seq![],
        },
        None => seq![],
    };
    value + key
}

/// The candidates of each line in turn.
pub open spec fn candidates(ls: Seq<Seq<char>>) -> Seq<Seq<char>>
    decreases ls.len(),
{
    if ls.len() == 0 {
        seq![]
    } else {
        candidates(ls.drop_last()) + line_candidates(ls.last())
    }
}

/// The characters of each string.
pub open spec fn strings_view(v: Seq<String>) -> Seq<Seq<char>> {
    Seq::new(v.len(), |i: int| v[i]@)
}

/// Appends the candidates of one line.
fn push_line_candidates(out: &mut Vec<String>, line: &[char])
    ensures
        strings_view(final(out)@) == strings_view(old(out)@) + line_candidates(line@),
{
    let ghost start = strings_view(out@);
    match split_once_chars(line, ':') {
        Some((_, b)) => out.push(string_of(&trim_chars(&b))),
        None => {},
    }
    let ghost mid = strings_view(out@);
    assert(mid =~= start + match split_once(line@, ':') {
        Some((_, b)) => seq![trim(b)],
        None => Seq::<Seq<char>>::empty(),
    });
    match split_once_chars(line, '-') {
        Some((_, rest)) => match split_once_chars(&rest, ':') {
            Some((k, _)) => out.push(string_of(&trim_chars(&k))),
            None => {},
        },
        None => {},
    }
    assert(strings_view(out@) =~= start + line_candidates(line@));
}

proof fn lemma_candidates_step(lv: Seq<Seq<char>>, i: int)
    requires
        0 <= i < lv.len(),
    ensures
        candidates(lv.take(i + 1)) == candidates(lv.take(i)) + line_candidates(lv[i]),
{
    let s = lv.take(i + 1);
    assert(s.drop_last() =~= lv.take(i));
    assert(s.last() == lv[i]);
}

/// The texts of `text` that reading it may parse as floats: for each line,
/// the trimmed value after the first `:`, and the trimmed key between the
/// first `-` and the `:` after it.
pub fn float_candidates(text: &str) -> (c: Vec<String>)
    ensures
        strings_view(c@) == candidates(lines(text@)),
{
    let chars = chars_of(text);
    let ls = split_lines(&chars);
    let ghost lv = lines_view(ls@);
    let mut out: Vec<String> = Vec::new();
    let n = ls.len();
    assert(strings_view(out@) =~= candidates(lv.take(0)));
    for i in 0..n
        invariant
            n == ls@.len(),
            lv == lines_view(ls@),
            strings_view(out@) == candidates(lv.take(i as int)),
    {
        proof {
            lemma_candidates_step(lv, i as int);
        }
        assert(lv[i as int] == ls@[i as int]@);
        push_line_candidates(&mut out, ls[i].as_slice());
    }
    assert(lv.take(n as int) =~= lv);
    out
}

} // verus!
