//! Lists of paths kept under string keys.

use crate::manifest::texts;
use vstd::hash_map::StringHashMap;
use vstd::prelude::*;

verus! {

/// The paths listed under `key`; none where the table has no such key.
pub open spec fn listed_under(table: Map<Seq<char>, Vec<String>>, key: Seq<char>) -> Set<
    Seq<char>,
> {
    if table.contains_key(key) {
        texts(table[key]@).to_set()
    } else {
        Set::empty()
    }
}

/// The list under `key`; empty where the table has no such key.
pub open spec fn list_at(table: Map<Seq<char>, Vec<String>>, key: Seq<char>) -> Seq<Seq<char>> {
    if table.contains_key(key) {
        texts(table[key]@)
    } else {
        Seq::empty()
    }
}

/// A copy of a list of paths.
pub fn copy_paths(paths: &Vec<String>) -> (copy: Vec<String>)
    ensures
        texts(copy@) == texts(paths@),
{
    let mut copy: Vec<String> = Vec::new();
    let mut i: usize = 0;
    while i < paths.len()
        invariant
            i <= paths@.len(),
            texts(copy@) == texts(paths@).take(i as int),
        decreases paths@.len() - i,
    {
        let ghost shorter = copy@;
        let path = paths[i].clone();
        copy.push(path);
        i = i + 1;
        proof {
            assert(texts(copy@) =~= texts(shorter).push(path@));
            assert(texts(paths@).take(i as int) =~= texts(paths@).take(i - 1).push(path@));
        }
    }
    proof {
        assert(texts(paths@).take(i as int) =~= texts(paths@));
    }
    copy
}

/// Adds `path` to the list under `key`, starting a list where there is none.
pub(crate) fn list_under(table: &mut StringHashMap<Vec<String>>, key: &String, path: String)
    ensures
        final(table)@.dom() == old(table)@.dom().insert(key@),
        forall|other: Seq<char>|
            other != key@ && old(table)@.contains_key(other) ==> #[trigger] final(table)@[other]
                == old(table)@[other],
        listed_under(final(table)@, key@) == listed_under(old(table)@, key@).insert(path@),
        list_at(final(table)@, key@) == list_at(old(table)@, key@).push(path@),
{
    let ghost before = table@;
    let mut list = match table.get(key.as_str()) {
        Some(found) => copy_paths(found),
        None => Vec::new(),
    };
    proof {
        assert(texts(list@) =~= list_at(before, key@));
        assert(texts(list@).to_set() =~= listed_under(before, key@));
        texts(list@).lemma_push_to_set_commute(path@);
    }
    let ghost shorter = list@;
    list.push(path);
    proof {
        assert(texts(list@) =~= texts(shorter).push(path@));
    }
    table.insert(key.clone(), list);
    proof {
        assert(table@.dom() =~= before.dom().insert(key@));
    }
}

/// The lists of a table, each as the characters of its paths.
pub open spec fn lists(table: Map<Seq<char>, Vec<String>>) -> Map<Seq<char>, Seq<Seq<char>>> {
    Map::new(|key: Seq<char>| table.contains_key(key), |key: Seq<char>| texts(table[key]@))
}

} // verus!
