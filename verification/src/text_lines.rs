//! The text form of a package as lines: what each value writes on its
//! property's line, and the lines that follow it.

use crate::b64::base64_encoded;
use crate::chars::replace;
use crate::format::summary_bytes;
use crate::numtext::{dec, hex, signed_dec};
use crate::text_facts::{join, lemma_join_concat};
use crate::text_format::{
    data_text, escape_newlines, items_text, key_text, object_text, pairs_text, prop_text,
    props_text, spaces, txt, PieceModel,
};
use crate::types::{DataModel, HeaderModel, MetadataModel, ObjectModel, PropertyModel};
use vstd::prelude::*;

verus! {

/// The text of one piece, floats written by `r`.
pub open spec fn piece_chars(p: PieceModel, r: spec_fn(u32) -> Seq<char>) -> Seq<char> {
    match p {
        PieceModel::Text(s) => s,
        PieceModel::Float(b) => r(b),
    }
}

/// The text of pieces, floats written by `r`.
pub open spec fn flat(ps: Seq<PieceModel>, r: spec_fn(u32) -> Seq<char>) -> Seq<char>
    decreases ps.len(),
{
    if ps.len() == 0 {
        seq![]
    } else {
        piece_chars(ps[0], r) + flat(ps.drop_first(), r)
    }
}

/// The text of two runs of pieces is the text of each, in turn.
pub proof fn lemma_flat_concat(a: Seq<PieceModel>, b: Seq<PieceModel>, r: spec_fn(u32) -> Seq<char>)
    ensures
        flat(a + b, r) == flat(a, r) + flat(b, r),
    decreases a.len(),
{
    if a.len() == 0 {
        assert(a + b =~= b);
        assert(flat(a, r) + flat(b, r) =~= flat(b, r));
    } else {
        assert((a + b).drop_first() =~= a.drop_first() + b);
        lemma_flat_concat(a.drop_first(), b, r);
        assert(flat(a + b, r) =~= flat(a, r) + flat(b, r));
    }
}

proof fn lemma_flat_txt(s: Seq<char>, r: spec_fn(u32) -> Seq<char>)
    ensures
        flat(txt(s), r) == s,
{
    assert(txt(s).drop_first() =~= Seq::<PieceModel>::empty());
    assert(flat(txt(s).drop_first(), r) =~= Seq::<char>::empty());
    assert(txt(s)[0] == PieceModel::Text(s));
    assert(s + Seq::<char>::empty() =~= s);
}

/// `s` followed by a line break.
pub open spec fn nl(s: Seq<char>) -> Seq<char> {
    s + seq!['\n']
}

/// What a value writes on its property's line, after the name.
pub open spec fn head(d: DataModel, m: MetadataModel, r: spec_fn(u32) -> Seq<char>) -> Seq<char> {
    match d {
        DataModel::Array(..) => "!Array"@,
        DataModel::Bool => match m {
            MetadataModel::Bool(true) => "true"@,
            _ => "false"@,
        },
        DataModel::Byte(v) => {
            let (e, x) = match m {
                MetadataModel::Byte(e, x) => (e, x),
                _ => (0u64, 0u8),
            };
            "!ByteProperty "@ + hex(e as nat) + " "@ + hex(x as nat) + " "@ + hex(v as nat)
        },
        DataModel::Enum(s) => {
            let n = match m {
                MetadataModel::Enum(n) => n,
                _ => Seq::empty(),
            };
            "!EnumProperty "@ + n + " "@ + replace(s, "::"@, "->"@)
        },
        DataModel::Struct(_, raw) => match m {
            MetadataModel::Struct(data) => "!struct "@ + base64_encoded(data) + " "@ + base64_encoded(raw),
            _ => seq![],
        },
        DataModel::Float(b) => r(b),
        DataModel::String(s) => if s.len() == 0 {
            "!EmptyString"@
        } else {
            "\""@ + escape_newlines(s) + "\""@
        },
        DataModel::StringUtf16(s) => "!utf16 "@ + escape_newlines(s),
        DataModel::MapEntries(_) => "!Map"@,
        DataModel::Name(s) => "!name "@ + s,
        DataModel::UInt16(v) => "!u16 "@ + dec(v as nat),
        DataModel::UInt32(v) => "!u32 "@ + dec(v as nat),
        DataModel::Int8(v) => "!i8 "@ + signed_dec(v as int),
        DataModel::Int16(v) => "!i16 "@ + signed_dec(v as int),
        DataModel::Int32(v) => "!i32 "@ + signed_dec(v as int),
    }
}

/// A map key as written between its entry's dash and colon.
pub open spec fn key_chars(k: DataModel, r: spec_fn(u32) -> Seq<char>) -> Seq<char> {
    match k {
        DataModel::Enum(s) => replace(s, "::"@, "->"@),
        DataModel::Int32(v) => signed_dec(v as int),
        DataModel::UInt16(v) => dec(v as nat),
        DataModel::String(s) => s,
        DataModel::Float(b) => r(b),
        DataModel::Byte(v) => hex(v as nat),
        _ => seq![],
    }
}

/// The lines that follow a value's first line: fields and entries of
/// arrays and maps, properties of structs.
pub open spec fn body_lines(d: DataModel, m: MetadataModel, ind: nat, r: spec_fn(u32) -> Seq<char>) -> Seq<Seq<char>>
    decreases d,
{
    let pre = spaces(ind + 2);
    match d {
        DataModel::Array(items, schema) => {
            let item_type = match m {
                MetadataModel::Array(t) => t,
                _ => Seq::empty(),
            };
            seq![nl(pre + "item_type: "@ + item_type)] + match schema {
                Some((h, n)) => seq![
                    nl(pre + "item_schema:"@),
                    nl(pre + "  name: "@ + h.name),
                    nl(pre + "  type: "@ + h.prop_type),
                    nl(pre + "array_name: "@ + n),
                ],
                None => seq![],
            } + seq![nl(pre + "items:"@)] + items_lines(items, m, ind, r)
        },
        DataModel::Struct(props, _) => props_lines(props, ind + 2, r),
        DataModel::MapEntries(pairs) => {
            let (k, v) = match m {
                MetadataModel::MapTypes(k, v) => (k, v),
                _ => (Seq::empty(), Seq::empty()),
            };
            seq![
                nl(pre + "key_type: "@ + k),
                nl(pre + "val_type: "@ + v),
                nl(pre + "map_data:"@),
            ] + pairs_lines(pairs, m, ind, r)
        },
        _ => seq![],
    }
}

/// The lines of an array's items.
pub open spec fn items_lines(items: Seq<DataModel>, m: MetadataModel, ind: nat, r: spec_fn(u32) -> Seq<char>) -> Seq<
    Seq<char>,
>
    decreases items,
{
    if items.len() == 0 {
        seq![]
    } else {
        let k = items.len() - 1;
        items_lines(items.subrange(0, k), m, ind, r) + seq![
            nl(spaces(ind + 2) + "- "@ + dec(k as nat) + ":"@ + head(items[k], m, r)),
        ] + body_lines(items[k], m, ind + 4, r)
    }
}

/// The lines of a map's entries.
pub open spec fn pairs_lines(
    pairs: Seq<(DataModel, DataModel)>,
    m: MetadataModel,
    ind: nat,
    r: spec_fn(u32) -> Seq<char>,
) -> Seq<Seq<char>>
    decreases pairs,
{
    if pairs.len() == 0 {
        seq![]
    } else {
        let k = pairs.len() - 1;
        pairs_lines(pairs.subrange(0, k), m, ind, r) + seq![
            nl(spaces(ind + 4) + "- "@ + key_chars(pairs[k].0, r) + ":"@ + head(pairs[k].1, m, r)),
        ] + body_lines(pairs[k].1, m, ind + 6, r)
    }
}

/// A property's name with its index where that is not zero, and the colon.
pub open spec fn name_part(h: HeaderModel) -> Seq<char> {
    if h.arr_index == 0 {
        h.name + ": "@
    } else {
        h.name + "["@ + dec(h.arr_index as nat) + "]: "@
    }
}

/// The lines of a property.
pub open spec fn prop_lines(p: PropertyModel, ind: nat, r: spec_fn(u32) -> Seq<char>) -> Seq<Seq<char>>
    decreases p,
{
    seq![nl(spaces(ind) + name_part(p.header) + head(p.data, p.metadata, r))] + body_lines(
        p.data,
        p.metadata,
        ind,
        r,
    )
}

/// The lines of properties.
pub open spec fn props_lines(props: Seq<PropertyModel>, ind: nat, r: spec_fn(u32) -> Seq<char>) -> Seq<Seq<char>>
    decreases props,
{
    if props.len() == 0 {
        seq![]
    } else {
        prop_lines(props[0], ind, r) + props_lines(props.subrange(1, props.len() as int), ind, r)
    }
}

/// The lines of an object's text.
pub open spec fn object_lines(o: ObjectModel, r: spec_fn(u32) -> Seq<char>) -> Seq<Seq<char>> {
    seq![nl("summary: "@ + base64_encoded(summary_bytes(o.summary))), nl("contents:"@)] + props_lines(
        o.properties,
        2,
        r,
    )
}

proof fn lemma_join1(a: Seq<char>)
    ensures
        join(seq![a]) == a,
{
    assert(seq![a].drop_first() =~= Seq::<Seq<char>>::empty());
    assert(join(seq![a].drop_first()) =~= Seq::<char>::empty());
    assert(a + Seq::<char>::empty() =~= a);
}

proof fn lemma_join_push(ls: Seq<Seq<char>>, a: Seq<char>, more: Seq<Seq<char>>)
    ensures
        join(ls + seq![a] + more) == join(ls) + a + join(more),
{
    lemma_join_concat(ls + seq![a], more);
    lemma_join_concat(ls, seq![a]);
    lemma_join1(a);
}

proof fn lemma_literals()
    ensures
        "!Array\n"@ == nl("!Array"@),
        "true\n"@ == nl("true"@),
        "false\n"@ == nl("false"@),
        "!EmptyString\n"@ == nl("!EmptyString"@),
        "!Map\n"@ == nl("!Map"@),
        "\"\n"@ == "\""@ + "\n"@,
        "\n"@ == seq!['\n'],
        "item_schema:\n"@ == nl("item_schema:"@),
        "items:\n"@ == nl("items:"@),
        "map_data:\n"@ == nl("map_data:"@),
        "contents:\n"@ == nl("contents:"@),
{
    reveal_strlit("!Array\n");
    reveal_strlit("!Array");
    reveal_strlit("true\n");
    reveal_strlit("true");
    reveal_strlit("false\n");
    reveal_strlit("false");
    reveal_strlit("!EmptyString\n");
    reveal_strlit("!EmptyString");
    reveal_strlit("!Map\n");
    reveal_strlit("!Map");
    reveal_strlit("\"\n");
    reveal_strlit("\"");
    reveal_strlit("\n");
    reveal_strlit("item_schema:\n");
    reveal_strlit("item_schema:");
    reveal_strlit("items:\n");
    reveal_strlit("items:");
    reveal_strlit("map_data:\n");
    reveal_strlit("map_data:");
    reveal_strlit("contents:\n");
    reveal_strlit("contents:");
    assert("!Array\n"@ =~= nl("!Array"@));
    assert("true\n"@ =~= nl("true"@));
    assert("false\n"@ =~= nl("false"@));
    assert("!EmptyString\n"@ =~= nl("!EmptyString"@));
    assert("!Map\n"@ =~= nl("!Map"@));
    assert("\"\n"@ =~= "\""@ + "\n"@);
    assert("\n"@ =~= seq!['\n']);
    assert("item_schema:\n"@ =~= nl("item_schema:"@));
    assert("items:\n"@ =~= nl("items:"@));
    assert("map_data:\n"@ =~= nl("map_data:"@));
    assert("contents:\n"@ =~= nl("contents:"@));
}

/// A value's text is its head, a line break, and its body lines.
pub proof fn lemma_data_flat(d: DataModel, m: MetadataModel, ind: nat, r: spec_fn(u32) -> Seq<char>)
    requires
        crate::text_format::data_text_ok(d, m, ind),
    ensures
        flat(data_text(d, m, ind), r) == nl(head(d, m, r)) + join(body_lines(d, m, ind, r)),
    decreases d, 1int,
{
    lemma_literals();
    let pre = spaces(ind + 2);
    let e = Seq::<Seq<char>>::empty();
    assert(join(e) =~= Seq::<char>::empty());
    match d {
        DataModel::Array(..) => {
            lemma_array_flat(d, m, ind, r);
        },
        DataModel::Struct(..) => {
            lemma_struct_flat(d, m, ind, r);
        },
        DataModel::MapEntries(..) => {
            lemma_map_flat(d, m, ind, r);
        },
        DataModel::Float(b) => {
            lemma_flat_concat(seq![PieceModel::Float(b)], txt("\n"@), r);
            lemma_flat_txt("\n"@, r);
            assert(seq![PieceModel::Float(b)].drop_first() =~= Seq::<PieceModel>::empty());
            assert(flat(seq![PieceModel::Float(b)].drop_first(), r) =~= Seq::<char>::empty());
            assert(flat(seq![PieceModel::Float(b)], r) =~= r(b));
            assert(flat(data_text(d, m, ind), r) =~= nl(head(d, m, r)) + join(body_lines(d, m, ind, r)));
        },
        _ => {
            assert(data_text(d, m, ind).len() == 1);
            let t = data_text(d, m, ind);
            assert(t.drop_first() =~= Seq::<PieceModel>::empty());
            assert(flat(t.drop_first(), r) =~= Seq::<char>::empty());
            let s0 = match t[0] {
                PieceModel::Text(s) => s,
                PieceModel::Float(_) => Seq::empty(),
            };
            assert(flat(t, r) =~= s0);
            assert(s0 =~= nl(head(d, m, r)));
            assert(flat(data_text(d, m, ind), r) =~= nl(head(d, m, r)) + join(body_lines(d, m, ind, r)));
        },
    }
}

proof fn lemma_array_flat(d: DataModel, m: MetadataModel, ind: nat, r: spec_fn(u32) -> Seq<char>)
    requires
        crate::text_format::data_text_ok(d, m, ind),
        d is Array,
    ensures
        flat(data_text(d, m, ind), r) == nl(head(d, m, r)) + join(body_lines(d, m, ind, r)),
    decreases d, 0int,
{
    lemma_literals();
    let pre = spaces(ind + 2);
    let e = Seq::<Seq<char>>::empty();
    assert(join(e) =~= Seq::<char>::empty());
    match d {
        DataModel::Array(items, schema) => {
            let it = match m {
                MetadataModel::Array(t) => t,
                _ => Seq::empty(),
            };
            let l1 = pre + "item_type: "@ + it + "\n"@;
            let sch = match schema {
                Some((h, n)) => txt(pre + "item_schema:\n"@) + txt(pre + "  name: "@ + h.name + "\n"@)
                    + txt(pre + "  type: "@ + h.prop_type + "\n"@) + txt(pre + "array_name: "@ + n + "\n"@),
                None => seq![],
            };
            let sch_lines = match schema {
                Some((h, n)) => seq![
                    nl(pre + "item_schema:"@),
                    nl(pre + "  name: "@ + h.name),
                    nl(pre + "  type: "@ + h.prop_type),
                    nl(pre + "array_name: "@ + n),
                ],
                None => seq![],
            };
            let l2 = pre + "items:\n"@;
            assert(data_text(d, m, ind) == txt("!Array\n"@) + txt(l1) + sch + txt(l2) + items_text(items, m, ind));
            lemma_items_flat(items, m, ind, r);
            lemma_flat_concat(txt("!Array\n"@) + txt(l1) + sch + txt(l2), items_text(items, m, ind), r);
            lemma_flat_concat(txt("!Array\n"@) + txt(l1) + sch, txt(l2), r);
            lemma_flat_concat(txt("!Array\n"@) + txt(l1), sch, r);
            lemma_flat_concat(txt("!Array\n"@), txt(l1), r);
            lemma_flat_txt("!Array\n"@, r);
            lemma_flat_txt(l1, r);
            lemma_flat_txt(l2, r);
            assert(l1 =~= nl(pre + "item_type: "@ + it));
            assert(l2 =~= nl(pre + "items:"@));
            match schema {
                Some((h, n)) => {
                    let a = pre + "item_schema:\n"@;
                    let b = pre + "  name: "@ + h.name + "\n"@;
                    let c = pre + "  type: "@ + h.prop_type + "\n"@;
                    let dd = pre + "array_name: "@ + n + "\n"@;
                    lemma_flat_concat(txt(a) + txt(b) + txt(c), txt(dd), r);
                    lemma_flat_concat(txt(a) + txt(b), txt(c), r);
                    lemma_flat_concat(txt(a), txt(b), r);
                    lemma_flat_txt(a, r);
                    lemma_flat_txt(b, r);
                    lemma_flat_txt(c, r);
                    lemma_flat_txt(dd, r);
                    assert(flat(sch, r) =~= join(sch_lines)) by {
                        lemma_join_push(seq![nl(pre + "item_schema:"@), nl(pre + "  name: "@ + h.name), nl(pre + "  type: "@ + h.prop_type)], nl(pre + "array_name: "@ + n), e);
                        lemma_join_push(seq![nl(pre + "item_schema:"@), nl(pre + "  name: "@ + h.name)], nl(pre + "  type: "@ + h.prop_type), e);
                        lemma_join_push(seq![nl(pre + "item_schema:"@)], nl(pre + "  name: "@ + h.name), e);
                        lemma_join1(nl(pre + "item_schema:"@));
                        assert(seq![nl(pre + "item_schema:"@), nl(pre + "  name: "@ + h.name), nl(pre + "  type: "@ + h.prop_type)] + seq![nl(pre + "array_name: "@ + n)] + e =~= sch_lines);
                        assert(seq![nl(pre + "item_schema:"@), nl(pre + "  name: "@ + h.name)] + seq![nl(pre + "  type: "@ + h.prop_type)] + e =~= seq![nl(pre + "item_schema:"@), nl(pre + "  name: "@ + h.name), nl(pre + "  type: "@ + h.prop_type)]);
                        assert(seq![nl(pre + "item_schema:"@)] + seq![nl(pre + "  name: "@ + h.name)] + e =~= seq![nl(pre + "item_schema:"@), nl(pre + "  name: "@ + h.name)]);
                    }
                },
                None => {
                    assert(flat(sch, r) =~= join(sch_lines));
                },
            }
            let body = body_lines(d, m, ind, r);
            assert(body =~= seq![nl(pre + "item_type: "@ + it)] + sch_lines + seq![nl(pre + "items:"@)] + items_lines(items, m, ind, r));
            lemma_join_push(seq![nl(pre + "item_type: "@ + it)] + sch_lines, nl(pre + "items:"@), items_lines(items, m, ind, r));
            lemma_join_concat(seq![nl(pre + "item_type: "@ + it)], sch_lines);
            lemma_join1(nl(pre + "item_type: "@ + it));
            assert(flat(data_text(d, m, ind), r) =~= nl(head(d, m, r)) + join(body));
        },
        _ => {},
    }
}

proof fn lemma_struct_flat(d: DataModel, m: MetadataModel, ind: nat, r: spec_fn(u32) -> Seq<char>)
    requires
        crate::text_format::data_text_ok(d, m, ind),
        d is Struct,
    ensures
        flat(data_text(d, m, ind), r) == nl(head(d, m, r)) + join(body_lines(d, m, ind, r)),
    decreases d, 0int,
{
    lemma_literals();
    let pre = spaces(ind + 2);
    let e = Seq::<Seq<char>>::empty();
    assert(join(e) =~= Seq::<char>::empty());
    match d {
        DataModel::Struct(props, raw) => {
            let hd = match m {
                MetadataModel::Struct(data) => txt("!struct "@ + base64_encoded(data) + " "@ + base64_encoded(raw)),
                _ => seq![],
            };
            assert(data_text(d, m, ind) == hd + txt("\n"@) + props_text(props, ind + 2));
            lemma_flat_concat(hd + txt("\n"@), props_text(props, ind + 2), r);
            lemma_flat_concat(hd, txt("\n"@), r);
            lemma_flat_txt("\n"@, r);
            match m {
                MetadataModel::Struct(data) => {
                    lemma_flat_txt("!struct "@ + base64_encoded(data) + " "@ + base64_encoded(raw), r);
                },
                _ => {
                    assert(flat(hd, r) =~= Seq::<char>::empty());
                },
            }
            lemma_props_flat(props, ind + 2, r);
            assert(flat(data_text(d, m, ind), r) =~= nl(head(d, m, r)) + join(body_lines(d, m, ind, r)));
        },
        _ => {},
    }
}

proof fn lemma_map_flat(d: DataModel, m: MetadataModel, ind: nat, r: spec_fn(u32) -> Seq<char>)
    requires
        crate::text_format::data_text_ok(d, m, ind),
        d is MapEntries,
    ensures
        flat(data_text(d, m, ind), r) == nl(head(d, m, r)) + join(body_lines(d, m, ind, r)),
    decreases d, 0int,
{
    lemma_literals();
    let pre = spaces(ind + 2);
    let e = Seq::<Seq<char>>::empty();
    assert(join(e) =~= Seq::<char>::empty());
    match d {
        DataModel::MapEntries(pairs) => {
            let (k, v) = match m {
                MetadataModel::MapTypes(k, v) => (k, v),
                _ => (Seq::empty(), Seq::empty()),
            };
            let a = pre + "key_type: "@ + k + "\n"@;
            let b = pre + "val_type: "@ + v + "\n"@;
            let c = pre + "map_data:\n"@;
            assert(data_text(d, m, ind) == txt("!Map\n"@) + txt(a) + txt(b) + txt(c) + pairs_text(pairs, m, ind));
            lemma_pairs_flat(pairs, m, ind, r);
            lemma_flat_concat(txt("!Map\n"@) + txt(a) + txt(b) + txt(c), pairs_text(pairs, m, ind), r);
            lemma_flat_concat(txt("!Map\n"@) + txt(a) + txt(b), txt(c), r);
            lemma_flat_concat(txt("!Map\n"@) + txt(a), txt(b), r);
            lemma_flat_concat(txt("!Map\n"@), txt(a), r);
            lemma_flat_txt("!Map\n"@, r);
            lemma_flat_txt(a, r);
            lemma_flat_txt(b, r);
            lemma_flat_txt(c, r);
            let la = nl(pre + "key_type: "@ + k);
            let lb = nl(pre + "val_type: "@ + v);
            let lc = nl(pre + "map_data:"@);
            let body = body_lines(d, m, ind, r);
            assert(body =~= seq![la, lb] + seq![lc] + pairs_lines(pairs, m, ind, r));
            lemma_join_push(seq![la, lb], lc, pairs_lines(pairs, m, ind, r));
            lemma_join_push(seq![la], lb, e);
            lemma_join1(la);
            assert(seq![la] + seq![lb] + e =~= seq![la, lb]);
            assert(flat(data_text(d, m, ind), r) =~= nl(head(d, m, r)) + join(body));
        },
        _ => {},
    }
}

/// The text of an array's items is the join of their lines.
pub proof fn lemma_items_flat(items: Seq<DataModel>, m: MetadataModel, ind: nat, r: spec_fn(u32) -> Seq<char>)
    requires
        forall|i: int| 0 <= i < items.len() ==> crate::text_format::data_text_ok(#[trigger] items[i], m, ind + 4),
    ensures
        flat(items_text(items, m, ind), r) == join(items_lines(items, m, ind, r)),
    decreases items, 0int,
{
    if items.len() == 0 {
        assert(flat(items_text(items, m, ind), r) =~= Seq::<char>::empty());
    } else {
        lemma_literals();
        let k = items.len() - 1;
        let init = items.subrange(0, k);
        let line = spaces(ind + 2) + "- "@ + dec(k as nat) + ":"@;
        lemma_items_flat(init, m, ind, r);
        lemma_data_flat(items[k], m, ind + 4, r);
        lemma_flat_concat(items_text(init, m, ind) + txt(line), data_text(items[k], m, ind + 4), r);
        lemma_flat_concat(items_text(init, m, ind), txt(line), r);
        lemma_flat_txt(line, r);
        lemma_join_push(items_lines(init, m, ind, r), nl(line + head(items[k], m, r)), body_lines(items[k], m, ind + 4, r));
        assert(nl(line + head(items[k], m, r)) =~= line + nl(head(items[k], m, r)));
        assert(flat(items_text(items, m, ind), r) =~= join(items_lines(items, m, ind, r)));
    }
}

proof fn lemma_key_flat(k: DataModel, ind: nat, r: spec_fn(u32) -> Seq<char>)
    requires
        crate::text_format::key_printable(k),
    ensures
        flat(key_text(k, ind), r) == spaces(ind + 4) + "- "@ + key_chars(k, r) + ":"@,
{
    let pre = spaces(ind + 4) + "- "@;
    match k {
        DataModel::Float(b) => {
            lemma_flat_concat(txt(pre) + seq![PieceModel::Float(b)], txt(":"@), r);
            lemma_flat_concat(txt(pre), seq![PieceModel::Float(b)], r);
            lemma_flat_txt(pre, r);
            lemma_flat_txt(":"@, r);
            assert(seq![PieceModel::Float(b)].drop_first() =~= Seq::<PieceModel>::empty());
            assert(flat(seq![PieceModel::Float(b)].drop_first(), r) =~= Seq::<char>::empty());
            assert(flat(seq![PieceModel::Float(b)], r) =~= r(b));
        },
        _ => {
            lemma_flat_txt(pre + key_chars(k, r) + ":"@, r);
        },
    }
}

/// The text of a map's entries is the join of their lines.
pub proof fn lemma_pairs_flat(pairs: Seq<(DataModel, DataModel)>, m: MetadataModel, ind: nat, r: spec_fn(u32) -> Seq<char>)
    requires
        forall|i: int|
            0 <= i < pairs.len() ==> crate::text_format::key_printable(#[trigger] pairs[i].0)
                && crate::text_format::data_text_ok(pairs[i].1, m, ind + 6),
    ensures
        flat(pairs_text(pairs, m, ind), r) == join(pairs_lines(pairs, m, ind, r)),
    decreases pairs, 0int,
{
    if pairs.len() == 0 {
        assert(flat(pairs_text(pairs, m, ind), r) =~= Seq::<char>::empty());
    } else {
        let k = pairs.len() - 1;
        let init = pairs.subrange(0, k);
        let kt = key_text(pairs[k].0, ind);
        let line = spaces(ind + 4) + "- "@ + key_chars(pairs[k].0, r) + ":"@;
        assert(crate::text_format::key_printable(pairs[k].0));
        lemma_pairs_flat(init, m, ind, r);
        lemma_key_flat(pairs[k].0, ind, r);
        lemma_data_flat(pairs[k].1, m, ind + 6, r);
        lemma_flat_concat(pairs_text(init, m, ind) + kt, data_text(pairs[k].1, m, ind + 6), r);
        lemma_flat_concat(pairs_text(init, m, ind), kt, r);
        lemma_join_push(pairs_lines(init, m, ind, r), nl(line + head(pairs[k].1, m, r)), body_lines(pairs[k].1, m, ind + 6, r));
        assert(nl(line + head(pairs[k].1, m, r)) =~= line + nl(head(pairs[k].1, m, r)));
        assert(flat(pairs_text(pairs, m, ind), r) =~= join(pairs_lines(pairs, m, ind, r)));
    }
}

/// The text of a property is its name part, head, line break and body.
pub proof fn lemma_prop_flat(p: PropertyModel, ind: nat, r: spec_fn(u32) -> Seq<char>)
    requires
        crate::text_format::prop_text_ok(p, ind),
    ensures
        flat(prop_text(p, ind), r) == name_part(p.header) + nl(head(p.data, p.metadata, r)) + join(
            body_lines(p.data, p.metadata, ind, r),
        ),
    decreases p, 0int,
{
    let np = name_part(p.header);
    assert(prop_text(p, ind) == txt(np) + data_text(p.data, p.metadata, ind));
    lemma_flat_concat(txt(np), data_text(p.data, p.metadata, ind), r);
    lemma_flat_txt(np, r);
    lemma_data_flat(p.data, p.metadata, ind, r);
    assert(flat(prop_text(p, ind), r) =~= np + nl(head(p.data, p.metadata, r)) + join(body_lines(p.data, p.metadata, ind, r)));
}

/// The text of properties is the join of their lines.
pub proof fn lemma_props_flat(props: Seq<PropertyModel>, ind: nat, r: spec_fn(u32) -> Seq<char>)
    requires
        forall|i: int| 0 <= i < props.len() ==> crate::text_format::prop_text_ok(#[trigger] props[i], ind),
    ensures
        flat(props_text(props, ind), r) == join(props_lines(props, ind, r)),
    decreases props, 0int,
{
    if props.len() == 0 {
        assert(flat(props_text(props, ind), r) =~= Seq::<char>::empty());
    } else {
        let p = props[0];
        let rest = props.subrange(1, props.len() as int);
        assert forall|i: int| 0 <= i < rest.len() implies crate::text_format::prop_text_ok(#[trigger] rest[i], ind) by {
            assert(rest[i] == props[i + 1]);
        }
        lemma_props_flat(rest, ind, r);
        lemma_prop_flat(p, ind, r);
        lemma_flat_concat(txt(spaces(ind)) + prop_text(p, ind), props_text(rest, ind), r);
        lemma_flat_concat(txt(spaces(ind)), prop_text(p, ind), r);
        lemma_flat_txt(spaces(ind), r);
        let first = nl(spaces(ind) + name_part(p.header) + head(p.data, p.metadata, r));
        lemma_join_push(Seq::<Seq<char>>::empty(), first, body_lines(p.data, p.metadata, ind, r) + props_lines(rest, ind, r));
        lemma_join_concat(body_lines(p.data, p.metadata, ind, r), props_lines(rest, ind, r));
        assert(prop_lines(p, ind, r) == seq![first] + body_lines(p.data, p.metadata, ind, r));
        assert(Seq::<Seq<char>>::empty() + seq![first] + (body_lines(p.data, p.metadata, ind, r) + props_lines(rest, ind, r)) =~= props_lines(props, ind, r));
        assert(join(Seq::<Seq<char>>::empty()) =~= Seq::<char>::empty());
        assert(flat(props_text(props, ind), r) =~= join(props_lines(props, ind, r)));
    }
}

/// The text of an object is the join of its lines.
pub proof fn lemma_object_flat(o: ObjectModel, r: spec_fn(u32) -> Seq<char>)
    requires
        crate::text_format::object_text_ok(o),
    ensures
        flat(object_text(o), r) == join(object_lines(o, r)),
{
    lemma_literals();
    let a = "summary: "@ + base64_encoded(summary_bytes(o.summary)) + "\n"@;
    lemma_flat_concat(txt(a) + txt("contents:\n"@), props_text(o.properties, 2), r);
    lemma_flat_concat(txt(a), txt("contents:\n"@), r);
    lemma_flat_txt(a, r);
    lemma_flat_txt("contents:\n"@, r);
    lemma_props_flat(o.properties, 2, r);
    let la = nl("summary: "@ + base64_encoded(summary_bytes(o.summary)));
    let lb = nl("contents:"@);
    lemma_join_push(seq![la], lb, props_lines(o.properties, 2, r));
    lemma_join1(la);
    assert(seq![la] + seq![lb] + props_lines(o.properties, 2, r) =~= object_lines(o, r));
    assert(flat(object_text(o), r) =~= join(object_lines(o, r)));
}

} // verus!
