//! The name map: every name and type name in a package is stored as an
//! index into it.

use crate::text_codec::str_eq;
use vstd::prelude::*;

verus! {

/// The characters of each name in the map.
pub open spec fn names_of(map: Seq<String>) -> Seq<Seq<char>> {
    map.map_values(|s: String| s@)
}

/// The index of the first occurrence of `s` in `map`.
pub open spec fn first_index(map: Seq<Seq<char>>, s: Seq<char>) -> Option<int>
    decreases map.len(),
{
    if map.len() == 0 {
        None
    } else if map[0] == s {
        Some(0)
    } else {
        match first_index(map.drop_first(), s) {
            Some(i) => Some(i + 1),
            None => None,
        }
    }
}

/// The index written for `s`: its first position in the map (0 when absent,
/// a case that the writers exclude).
pub open spec fn index_of(map: Seq<Seq<char>>, s: Seq<char>) -> u64 {
    match first_index(map, s) {
        Some(i) => i as u64,
        None => 0,
    }
}

/// `s` occurs in the map.
pub open spec fn in_map(map: Seq<Seq<char>>, s: Seq<char>) -> bool {
    first_index(map, s) is Some
}

/// `first_index` is the least position holding `s`.
pub proof fn lemma_first_index(map: Seq<Seq<char>>, s: Seq<char>)
    ensures
        first_index(map, s) matches Some(i) ==> 0 <= i < map.len() && map[i] == s && forall|
            j: int,
        |
            0 <= j < i ==> map[j] != s,
        first_index(map, s) is None ==> forall|j: int| 0 <= j < map.len() ==> map[j] != s,
    decreases map.len(),
{
    if map.len() > 0 {
        lemma_first_index(map.drop_first(), s);
        if map[0] != s {
            assert forall|j: int| 0 < j < map.len() implies map[j] == map.drop_first()[j - 1] by {}
        }
    }
}

/// A name that occurs at `i` and nowhere before is found at `i`.
pub proof fn lemma_first_index_at(map: Seq<Seq<char>>, s: Seq<char>, i: int)
    requires
        0 <= i < map.len(),
        map[i] == s,
        forall|j: int| 0 <= j < i ==> map[j] != s,
    ensures
        first_index(map, s) == Some(i),
{
    lemma_first_index(map, s);
}

/// Looks `s` up in the name map, as `name_map.iter().position(..)` does.
pub fn find_name(map: &[String], s: &str) -> (r: Option<usize>)
    ensures
        r matches Some(i) ==> first_index(names_of(map@), s@) == Some(i as int),
        r is None ==> first_index(names_of(map@), s@) is None,
{
    let n = map.len();
    let ghost names = names_of(map@);
    for i in 0..n
        invariant
            n == map@.len(),
            names == names_of(map@),
            forall|j: int| 0 <= j < i ==> names[j] != s@,
    {
        if str_eq(map[i].as_str(), s) {
            proof {
                lemma_first_index_at(names, s@, i as int);
            }
            return Some(i);
        }
    }
    proof {
        lemma_first_index(names, s@);
    }
    None
}

} // verus!
