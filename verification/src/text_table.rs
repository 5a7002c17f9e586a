//! Reading text looks floats up only at the texts that `float_candidates`
//! lists: the value after a line's first colon, and the key of a list
//! entry. Two float tables that agree on those texts read the same.

use crate::chars::{find, indented, is_ws, lead_ws, lemma_lead_ws, split_once, starts_with, trim};
use crate::text_facts::lemma_find_at;
use crate::text_parse::{
    array_fields, array_items, float_of, is_entry, lemma_next_line, line_at, map_entries, map_fields,
    map_key, name_and_index, next_line, parse_array, parse_map, parse_object_text, parse_prop,
    parse_props, parse_schema, parse_value, scalar_value,
};
use crate::text_reader::{candidates, line_candidates};
use crate::types::{spec_type_name, DataModel, HeaderModel, MetadataModel};
use vstd::prelude::*;

verus! {

/// Two float tables give the same for every candidate text of the lines.
#[verifier::opaque]
pub open spec fn tables_agree(
    ls: Seq<Seq<char>>,
    fl: Seq<(Seq<char>, Option<u32>)>,
    fl2: Seq<(Seq<char>, Option<u32>)>,
) -> bool {
    forall|j: int, k: int|
        #![trigger line_candidates(ls[j])[k]]
        0 <= j < ls.len() && 0 <= k < line_candidates(ls[j]).len() ==> float_of(fl, line_candidates(ls[j])[k])
            == float_of(fl2, line_candidates(ls[j])[k])
}

/// Agreeing tables give the same for candidate `k` of line `j`.
pub proof fn lemma_agree_at(
    ls: Seq<Seq<char>>,
    fl: Seq<(Seq<char>, Option<u32>)>,
    fl2: Seq<(Seq<char>, Option<u32>)>,
    j: int,
    k: int,
)
    requires
        tables_agree(ls, fl, fl2),
        0 <= j < ls.len(),
        0 <= k < line_candidates(ls[j]).len(),
    ensures
        float_of(fl, line_candidates(ls[j])[k]) == float_of(fl2, line_candidates(ls[j])[k]),
{
    reveal(tables_agree);
}

/// The first candidate of a line with a colon is the trimmed text after it.
pub proof fn lemma_value_candidate(line: Seq<char>, a: Seq<char>, b: Seq<char>)
    requires
        split_once(line, ':') == Some((a, b)),
    ensures
        line_candidates(line).len() >= 1,
        line_candidates(line)[0] == trim(b),
{
}

/// In a list entry, the first colon of the line is the first colon after
/// its dash: the line's candidates are the entry's value and key.
pub proof fn lemma_entry_candidates(
    line: Seq<char>,
    n: nat,
    x: Seq<char>,
    rest: Seq<char>,
    k: Seq<char>,
    v: Seq<char>,
)
    requires
        is_entry(line, n),
        split_once(line, '-') == Some((x, rest)),
        split_once(rest, ':') == Some((k, v)),
    ensures
        line_candidates(line).len() == 2,
        line_candidates(line)[0] == trim(v),
        line_candidates(line)[1] == trim(k),
{
    let lead = lead_ws(line);
    lemma_lead_ws(line);
    let a = line.skip(lead as int);
    let tl = trim(line);
    assert(tl == a.take(a.len() - crate::chars::trail_ws(a)));
    crate::chars::lemma_trail_ws(a);
    assert(tl.len() >= 1 && tl[0] == '-') by {
        assert(tl.take(1) == seq!['-']);
        assert(tl.take(1)[0] == tl[0]);
    }
    assert(lead < line.len() && line[lead as int] == '-') by {
        assert(tl[0] == a[0]);
    }
    match find(line, '-') {
        Some(i) => {
            assert(0 <= i < line.len() && line[i] == '-' && forall|m: int| 0 <= m < i ==> line[m] != '-');
            assert(rest == line.skip(i + 1));
            assert(i == lead) by {
                if i < lead {
                    assert(is_ws(line[i]));
                }
                if i > lead {
                    assert(line[lead as int] != '-');
                }
            }
            match find(rest, ':') {
                Some(t) => {
                    let w = choose|m: int| 0 <= m < rest.len() && rest[m] == ':';
                    crate::text_facts::lemma_find_some(rest, ':', w);
                    assert(0 <= t < rest.len() && rest[t] == ':' && forall|m: int| 0 <= m < t ==> rest[m] != ':');
                    assert(k == rest.take(t) && v == rest.skip(t + 1));
                    assert forall|m: int| 0 <= m < i + 1 + t implies line[m] != ':' by {
                        if m < i {
                            assert(is_ws(line[m]));
                        } else if m > i {
                            assert(line[m] == rest[m - i - 1]);
                        }
                    }
                    assert(line[i + 1 + t] == rest[t]);
                    lemma_find_at(line, ':', i + 1 + t);
                    assert(line.skip(i + 1 + t + 1) =~= v);
                },
                None => {},
            }
        },
        None => {},
    }
}

/// A value without further lines reads the same through agreeing tables.
pub proof fn lemma_scalar_tables(
    fl: Seq<(Seq<char>, Option<u32>)>,
    fl2: Seq<(Seq<char>, Option<u32>)>,
    v: Seq<char>,
    pos: int,
)
    requires
        float_of(fl, v) == float_of(fl2, v),
    ensures
        scalar_value(fl, v, pos) == scalar_value(fl2, v, pos),
{
    reveal(scalar_value);
}

/// A map key reads the same through agreeing tables.
pub proof fn lemma_key_tables(
    fl: Seq<(Seq<char>, Option<u32>)>,
    fl2: Seq<(Seq<char>, Option<u32>)>,
    key: Seq<char>,
    kt: Seq<char>,
)
    requires
        float_of(fl, key) == float_of(fl2, key),
    ensures
        map_key(fl, key, kt) == map_key(fl2, key, kt),
{
    reveal(map_key);
}

/// A value reads the same through agreeing tables.
pub proof fn lemma_value_tables(
    ls: Seq<Seq<char>>,
    fl: Seq<(Seq<char>, Option<u32>)>,
    fl2: Seq<(Seq<char>, Option<u32>)>,
    val: Seq<char>,
    pos: int,
    ind: nat,
)
    requires
        tables_agree(ls, fl, fl2),
        float_of(fl, trim(val)) == float_of(fl2, trim(val)),
    ensures
        parse_value(ls, fl, val, pos, ind) == parse_value(ls, fl2, val, pos, ind),
    decreases ls.len() - pos, 3int,
{
    let v = trim(val);
    if v.len() == 0 || starts_with(v, "!struct"@) {
        lemma_props_tables(ls, fl, fl2, pos, ind + 2);
    } else if starts_with(v, "!Map"@) {
        lemma_map_tables(ls, fl, fl2, pos, ind);
    } else if starts_with(v, "!Array"@) {
        lemma_array_tables(ls, fl, fl2, pos, ind);
    } else {
        lemma_scalar_tables(fl, fl2, v, pos);
    }
}

/// A property reads the same through agreeing tables.
pub proof fn lemma_prop_tables(
    ls: Seq<Seq<char>>,
    fl: Seq<(Seq<char>, Option<u32>)>,
    fl2: Seq<(Seq<char>, Option<u32>)>,
    pos: int,
    ind: nat,
)
    requires
        tables_agree(ls, fl, fl2),
    ensures
        parse_prop(ls, fl, pos, ind) == parse_prop(ls, fl2, pos, ind),
    decreases ls.len() - pos, 1int,
{
    let j = next_line(ls, pos);
    let line = line_at(ls, j);
    if line.len() > 0 && indented(line, ind) {
        match split_once(line, ':') {
            Some((a, b)) => {
                if 0 <= pos <= j < ls.len() {
                    lemma_value_candidate(line, a, b);
                    lemma_agree_at(ls, fl, fl2, j, 0);
                    lemma_value_tables(ls, fl, fl2, b, j + 1, ind);
                }
            },
            None => {},
        }
    }
}

/// Properties read the same through agreeing tables.
pub proof fn lemma_props_tables(
    ls: Seq<Seq<char>>,
    fl: Seq<(Seq<char>, Option<u32>)>,
    fl2: Seq<(Seq<char>, Option<u32>)>,
    pos: int,
    ind: nat,
)
    requires
        tables_agree(ls, fl, fl2),
    ensures
        parse_props(ls, fl, pos, ind) == parse_props(ls, fl2, pos, ind),
    decreases ls.len() - pos, 2int,
{
    lemma_prop_tables(ls, fl, fl2, pos, ind);
    match parse_prop(ls, fl, pos, ind) {
        Ok((Some(_), p)) => {
            if pos < p <= ls.len() {
                lemma_props_tables(ls, fl, fl2, p, ind);
            }
        },
        _ => {},
    }
}

/// Map entries read the same through agreeing tables.
#[verifier::spinoff_prover]
#[verifier::rlimit(60)]
pub proof fn lemma_entries_tables(
    ls: Seq<Seq<char>>,
    fl: Seq<(Seq<char>, Option<u32>)>,
    fl2: Seq<(Seq<char>, Option<u32>)>,
    pos: int,
    ind: nat,
    kt: Seq<char>,
)
    requires
        tables_agree(ls, fl, fl2),
    ensures
        map_entries(ls, fl, pos, ind, kt) == map_entries(ls, fl2, pos, ind, kt),
    decreases ls.len() - pos, 0int,
{
    let j = next_line(ls, pos);
    let line = line_at(ls, j);
    if 0 <= pos <= ls.len() {
        lemma_next_line(ls, pos);
    }
    if is_entry(line, ind + 4) && 0 <= pos <= j < ls.len() {
        match split_once(line, '-') {
            Some((x, rest)) => match split_once(rest, ':') {
                Some((k, v)) => {
                    lemma_entry_candidates(line, ind + 4, x, rest, k, v);
                    lemma_agree_at(ls, fl, fl2, j, 0);
                    lemma_agree_at(ls, fl, fl2, j, 1);
                    lemma_key_tables(fl, fl2, trim(k), kt);
                    lemma_value_tables(ls, fl, fl2, v, j + 1, ind + 6);
                    match parse_value(ls, fl, v, j + 1, ind + 6) {
                        Ok((_, _, p)) => {
                            if j < p <= ls.len() {
                                lemma_entries_tables(ls, fl, fl2, p, ind, kt);
                            }
                        },
                        _ => {},
                    }
                },
                None => {},
            },
            None => {},
        }
    }
}

/// A map's fields read the same through agreeing tables.
#[verifier::spinoff_prover]
#[verifier::rlimit(60)]
pub proof fn lemma_fields_tables(
    ls: Seq<Seq<char>>,
    fl: Seq<(Seq<char>, Option<u32>)>,
    fl2: Seq<(Seq<char>, Option<u32>)>,
    pos: int,
    ind: nat,
    k: nat,
    key_type: Option<Seq<char>>,
    val_type: Option<Seq<char>>,
    sets: Seq<(DataModel, DataModel, MetadataModel)>,
)
    requires
        tables_agree(ls, fl, fl2),
    ensures
        map_fields(ls, fl, pos, ind, k, key_type, val_type, sets) == map_fields(
            ls,
            fl2,
            pos,
            ind,
            k,
            key_type,
            val_type,
            sets,
        ),
    decreases ls.len() - pos, 1int,
{
    if k > 0 {
        let j = next_line(ls, pos);
        let line = line_at(ls, j);
        if indented(line, ind + 2) && 0 <= pos <= j < ls.len() {
            match split_once(line, ':') {
                Some((a, b)) => {
                    let f = trim(a);
                    if f == "key_type"@ {
                        lemma_fields_tables(ls, fl, fl2, j + 1, ind, (k - 1) as nat, Some(trim(b)), val_type, sets);
                    } else if f == "val_type"@ {
                        lemma_fields_tables(ls, fl, fl2, j + 1, ind, (k - 1) as nat, key_type, Some(trim(b)), sets);
                    } else if f == "map_data"@ {
                        match (key_type, val_type) {
                            (Some(kt), Some(vt)) => {
                                lemma_entries_tables(ls, fl, fl2, j + 1, ind, kt);
                                match map_entries(ls, fl, j + 1, ind, kt) {
                                    Ok((more, p)) => {
                                        if j < p <= ls.len() {
                                            lemma_fields_tables(
                                                ls,
                                                fl,
                                                fl2,
                                                p,
                                                ind,
                                                (k - 1) as nat,
                                                key_type,
                                                val_type,
                                                sets + more,
                                            );
                                        }
                                    },
                                    _ => {},
                                }
                            },
                            _ => {},
                        }
                    }
                },
                None => {},
            }
        }
    }
}

/// A map reads the same through agreeing tables.
pub proof fn lemma_map_tables(
    ls: Seq<Seq<char>>,
    fl: Seq<(Seq<char>, Option<u32>)>,
    fl2: Seq<(Seq<char>, Option<u32>)>,
    pos: int,
    ind: nat,
)
    requires
        tables_agree(ls, fl, fl2),
    ensures
        parse_map(ls, fl, pos, ind) == parse_map(ls, fl2, pos, ind),
    decreases ls.len() - pos, 2int,
{
    lemma_fields_tables(ls, fl, fl2, pos, ind, 3, None, None, seq![]);
}

/// Array items read the same through agreeing tables.
pub proof fn lemma_items_tables(
    ls: Seq<Seq<char>>,
    fl: Seq<(Seq<char>, Option<u32>)>,
    fl2: Seq<(Seq<char>, Option<u32>)>,
    pos: int,
    ind: nat,
)
    requires
        tables_agree(ls, fl, fl2),
    ensures
        array_items(ls, fl, pos, ind) == array_items(ls, fl2, pos, ind),
    decreases ls.len() - pos, 0int,
{
    let j = next_line(ls, pos);
    let line = line_at(ls, j);
    if is_entry(line, ind + 2) && 0 <= pos <= j < ls.len() {
        match split_once(line, ':') {
            Some((x, v)) => {
                lemma_value_candidate(line, x, v);
                lemma_agree_at(ls, fl, fl2, j, 0);
                lemma_value_tables(ls, fl, fl2, v, j + 1, ind + 4);
                match parse_value(ls, fl, v, j + 1, ind + 4) {
                    Ok((_, _, p)) => {
                        if j < p <= ls.len() {
                            lemma_items_tables(ls, fl, fl2, p, ind);
                        }
                    },
                    _ => {},
                }
            },
            None => {},
        }
    }
}

/// An array's fields read the same through agreeing tables.
#[verifier::spinoff_prover]
#[verifier::rlimit(60)]
pub proof fn lemma_array_fields_tables(
    ls: Seq<Seq<char>>,
    fl: Seq<(Seq<char>, Option<u32>)>,
    fl2: Seq<(Seq<char>, Option<u32>)>,
    pos: int,
    ind: nat,
    i: int,
    item_type: Option<Seq<char>>,
    schema: Option<HeaderModel>,
    array_name: Option<Seq<char>>,
    items: Seq<(DataModel, MetadataModel)>,
)
    requires
        tables_agree(ls, fl, fl2),
    ensures
        array_fields(ls, fl, pos, ind, i, item_type, schema, array_name, items) == array_fields(
            ls,
            fl2,
            pos,
            ind,
            i,
            item_type,
            schema,
            array_name,
            items,
        ),
    decreases ls.len() - pos, 1int,
{
    if i < 2 {
        let j = next_line(ls, pos);
        let line = line_at(ls, j);
        if indented(line, ind + 2) && 0 <= pos <= j < ls.len() {
            match split_once(line, ':') {
                Some((a, b)) => {
                    let f = trim(a);
                    if f == "item_type"@ {
                        let t = trim(b);
                        let next = if t == "StructProperty"@ {
                            i - 1
                        } else {
                            i + 1
                        };
                        lemma_array_fields_tables(ls, fl, fl2, j + 1, ind, next, Some(t), schema, array_name, items);
                    } else if f == "item_schema"@ {
                        match parse_schema(ls, j + 1, ind) {
                            Ok((h, p)) => {
                                if j < p <= ls.len() {
                                    lemma_array_fields_tables(ls, fl, fl2, p, ind, i + 1, item_type, Some(h), array_name, items);
                                }
                            },
                            _ => {},
                        }
                    } else if f == "array_name"@ {
                        lemma_array_fields_tables(ls, fl, fl2, j + 1, ind, i + 1, item_type, schema, Some(trim(b)), items);
                    } else if f == "items"@ {
                        match item_type {
                            Some(t) => {
                                lemma_items_tables(ls, fl, fl2, j + 1, ind);
                                match array_items(ls, fl, j + 1, ind) {
                                    Ok((more, p)) => {
                                        if j < p <= ls.len() {
                                            lemma_array_fields_tables(
                                                ls,
                                                fl,
                                                fl2,
                                                p,
                                                ind,
                                                i + 1,
                                                item_type,
                                                schema,
                                                array_name,
                                                items + more,
                                            );
                                        }
                                    },
                                    _ => {},
                                }
                            },
                            None => {},
                        }
                    }
                },
                None => {},
            }
        }
    }
}

/// An array reads the same through agreeing tables.
pub proof fn lemma_array_tables(
    ls: Seq<Seq<char>>,
    fl: Seq<(Seq<char>, Option<u32>)>,
    fl2: Seq<(Seq<char>, Option<u32>)>,
    pos: int,
    ind: nat,
)
    requires
        tables_agree(ls, fl, fl2),
    ensures
        parse_array(ls, fl, pos, ind) == parse_array(ls, fl2, pos, ind),
    decreases ls.len() - pos, 2int,
{
    lemma_array_fields_tables(ls, fl, fl2, pos, ind, 0, None, None, None, seq![]);
}

/// Candidate `k` of line `j` stands among the candidates of the lines.
pub proof fn lemma_candidate_index(ls: Seq<Seq<char>>, j: int, k: int) -> (i: int)
    requires
        0 <= j < ls.len(),
        0 <= k < line_candidates(ls[j]).len(),
    ensures
        0 <= i < candidates(ls).len(),
        candidates(ls)[i] == line_candidates(ls[j])[k],
    decreases ls.len(),
{
    let init = ls.drop_last();
    if j == ls.len() - 1 {
        candidates(init).len() + k
    } else {
        assert(init[j] == ls[j]);
        lemma_candidate_index(init, j, k)
    }
}

/// Reading an object's text looks floats up only at the texts that
/// `float_candidates` lists: two float tables that give the same for each
/// of them read the same object, or the same error.
pub proof fn lemma_table_candidates(
    ls: Seq<Seq<char>>,
    fl: Seq<(Seq<char>, Option<u32>)>,
    fl2: Seq<(Seq<char>, Option<u32>)>,
)
    requires
        forall|i: int| 0 <= i < candidates(ls).len() ==> float_of(fl, #[trigger] candidates(ls)[i]) == float_of(fl2, candidates(ls)[i]),
    ensures
        parse_object_text(ls, fl) == parse_object_text(ls, fl2),
{
    assert(tables_agree(ls, fl, fl2)) by {
        reveal(tables_agree);
        assert forall|j: int, k: int|
            #![trigger line_candidates(ls[j])[k]]
            0 <= j < ls.len() && 0 <= k < line_candidates(ls[j]).len() implies float_of(fl, line_candidates(ls[j])[k])
                == float_of(fl2, line_candidates(ls[j])[k]) by {
            let i = lemma_candidate_index(ls, j, k);
            assert(float_of(fl, candidates(ls)[i]) == float_of(fl2, candidates(ls)[i]));
        }
    }
    lemma_props_tables(ls, fl, fl2, 2, 2);
}

} // verus!
