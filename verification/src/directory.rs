//! Directory contents: a vector of entries kept in strictly increasing name order.
use vstd::prelude::*;
use crate::text::{name_lt, str_less, lemma_name_lt_irreflexive, lemma_name_lt_transitive,
    lemma_name_lt_total};

verus! {

/// One name in a directory and the inode it refers to.
#[derive(Debug, Clone, PartialEq, Eq)]
pub struct DirEntry {
    pub name: String,
    pub id: u64,
}

/// Entries are sorted by name, strictly: no name occurs twice.
pub open spec fn entries_sorted(es: Seq<DirEntry>) -> bool {
    forall|i: int, j: int| 0 <= i < j < es.len() ==> name_lt(#[trigger] es[i].name@, #[trigger] es[j].name@)
}

/// Whether some entry carries the given name.
pub open spec fn entries_have(es: Seq<DirEntry>, k: Seq<char>) -> bool {
    exists|i: int| 0 <= i < es.len() && #[trigger] es[i].name@ == k
}

/// The mapping from names to inode ids that a directory's entries describe.
pub open spec fn entries_map(es: Seq<DirEntry>) -> Map<Seq<char>, u64> {
    Map::new(
        |k: Seq<char>| entries_have(es, k),
        |k: Seq<char>| es[entry_index(es, k)].id,
    )
}

/// An index at which the given name occurs, if there is one.
pub open spec fn entry_index(es: Seq<DirEntry>, k: Seq<char>) -> int {
    choose|i: int| 0 <= i < es.len() && #[trigger] es[i].name@ == k
}

/// The names of the entries, in order.
pub open spec fn entries_names(es: Seq<DirEntry>) -> Seq<Seq<char>> {
    es.map_values(|e: DirEntry| e.name@)
}

pub proof fn lemma_sorted_unique(es: Seq<DirEntry>, i: int, j: int)
    requires
        entries_sorted(es),
        0 <= i < es.len(),
        0 <= j < es.len(),
        es[i].name@ == es[j].name@,
    ensures
        i == j,
{
    if i < j {
        assert(name_lt(es[i].name@, es[j].name@));
        lemma_name_lt_irreflexive(es[i].name@);
    } else if j < i {
        assert(name_lt(es[j].name@, es[i].name@));
        lemma_name_lt_irreflexive(es[i].name@);
    }
}

/// In a sorted directory, the entry at index `i` is what the map gives for its name.
pub proof fn lemma_entries_map_at(es: Seq<DirEntry>, i: int)
    requires
        entries_sorted(es),
        0 <= i < es.len(),
    ensures
        entries_map(es).contains_key(es[i].name@),
        entries_map(es)[es[i].name@] == es[i].id,
{
    let k = es[i].name@;
    assert(entries_have(es, k));
    let j = entry_index(es, k);
    lemma_sorted_unique(es, i, j);
}

/// Looks a name up by a linear scan.
pub fn entries_find(es: &Vec<DirEntry>, name: &String) -> (r: Option<usize>)
    requires
        entries_sorted(es@),
    ensures
        match r {
            Some(i) => i < es@.len() && es@[i as int].name@ == name@
                && entries_map(es@).contains_key(name@)
                && entries_map(es@)[name@] == es@[i as int].id,
            None => !entries_map(es@).contains_key(name@),
        },
{
    let mut i: usize = 0;
    while i < es.len()
        invariant
            i <= es@.len(),
            entries_sorted(es@),
            forall|j: int| 0 <= j < i ==> (#[trigger] es@[j]).name@ != name@,
        decreases es.len() - i,
    {
        if es[i].name.eq(name) {
            proof { lemma_entries_map_at(es@, i as int); }
            return Some(i);
        }
        i = i + 1;
    }
    None
}

/// The id stored under `name`, if any.
pub fn entries_get(es: &Vec<DirEntry>, name: &String) -> (r: Option<u64>)
    requires
        entries_sorted(es@),
    ensures
        r == entries_map(es@).get(name@) ,
{
    match entries_find(es, name) {
        Some(i) => Some(es[i].id),
        None => None,
    }
}

/// Whether `name` is present.
pub fn entries_contains(es: &Vec<DirEntry>, name: &String) -> (r: bool)
    requires
        entries_sorted(es@),
    ensures
        r == entries_map(es@).contains_key(name@),
{
    entries_find(es, name).is_some()
}

/// Maps `name` to `id`, replacing an existing entry of that name or adding one in order.
pub fn entries_insert(es: &mut Vec<DirEntry>, name: String, id: u64)
    requires
        entries_sorted(old(es)@),
    ensures
        entries_sorted(final(es)@),
        entries_map(final(es)@) == entries_map(old(es)@).insert(name@, id),
{
    let ghost old_es = es@;
    match entries_find(es, &name) {
        Some(i) => {
            let ghost nm = name@;
            let e = DirEntry { name, id };
            es.set(i, e);
            proof {
                let new_es = es@;
                assert forall|a: int, b: int| 0 <= a < b < new_es.len() implies name_lt(
                    #[trigger] new_es[a].name@,
                    #[trigger] new_es[b].name@,
                ) by {
                    assert(name_lt(old_es[a].name@, old_es[b].name@));
                }
                assert forall|k: Seq<char>| entries_have(new_es, k) <==> entries_have(old_es, k) by {
                    if entries_have(new_es, k) {
                        let j = choose|j: int| 0 <= j < new_es.len() && #[trigger] new_es[j].name@ == k;
                        if j != i { assert(old_es[j].name@ == k); }
                    }
                    if entries_have(old_es, k) {
                        let j = choose|j: int| 0 <= j < old_es.len() && #[trigger] old_es[j].name@ == k;
                        if j != i { assert(new_es[j].name@ == k); } else { assert(new_es[j].name@ == k); }
                    }
                }
                assert forall|k: Seq<char>| #[trigger] entries_map(new_es).contains_key(k) implies entries_map(new_es)[k] == entries_map(old_es).insert(nm, id)[k] by {
                    let j = choose|j: int| 0 <= j < new_es.len() && #[trigger] new_es[j].name@ == k;
                    lemma_entries_map_at(new_es, j);
                    if j != i {
                        lemma_entries_map_at(old_es, j);
                        if k == nm { lemma_sorted_unique(new_es, i as int, j); }
                    }
                }
                assert(entries_map(new_es) =~= entries_map(old_es).insert(nm, id));
            }
        },
        None => {
            let mut pos: usize = 0;
            while pos < es.len()
                invariant
                    es@ == old_es,
                    entries_sorted(es@),
                    pos <= es@.len(),
                    !entries_map(es@).contains_key(name@),
                    forall|j: int| 0 <= j < pos ==> name_lt(#[trigger] es@[j].name@, name@),
                ensures
                    pos == es@.len() || name_lt(name@, es@[pos as int].name@),
                decreases es.len() - pos,
            {
                if str_less(name.as_str(), es[pos].name.as_str()) {
                    break;
                }
                proof {
                    let en = es@[pos as int].name@;
                    if en == name@ {
                        assert(entries_have(es@, name@));
                        assert(entries_map(es@).contains_key(name@));
                    }
                    lemma_name_lt_total(en, name@);
                }
                pos = pos + 1;
            }
            let ghost nm = name@;
            let e = DirEntry { name, id };
            es.insert(pos, e);
            proof {
                let new_es = es@;
                assert(pos == old_es.len() || name_lt(nm, old_es[pos as int].name@));
                assert forall|a: int, b: int| 0 <= a < b < new_es.len() implies name_lt(
                    #[trigger] new_es[a].name@,
                    #[trigger] new_es[b].name@,
                ) by {
                    if b < pos {
                        assert(name_lt(old_es[a].name@, old_es[b].name@));
                    } else if b == pos {
                    } else if a < pos {
                        assert(name_lt(old_es[a].name@, nm));
                        if b - 1 > pos {
                            assert(name_lt(old_es[pos as int].name@, old_es[b - 1].name@));
                            lemma_name_lt_transitive(nm, old_es[pos as int].name@, old_es[b - 1].name@);
                        }
                        lemma_name_lt_transitive(old_es[a].name@, nm, old_es[b - 1].name@);
                    } else if a == pos {
                        if b - 1 > pos {
                            assert(name_lt(old_es[pos as int].name@, old_es[b - 1].name@));
                            lemma_name_lt_transitive(nm, old_es[pos as int].name@, old_es[b - 1].name@);
                        }
                    } else {
                        assert(name_lt(old_es[a - 1].name@, old_es[b - 1].name@));
                    }
                }
                assert forall|k: Seq<char>| entries_have(new_es, k) <==> (entries_have(old_es, k) || k == nm) by {
                    if entries_have(new_es, k) {
                        let j = choose|j: int| 0 <= j < new_es.len() && #[trigger] new_es[j].name@ == k;
                        if j < pos { assert(old_es[j].name@ == k); }
                        else if j > pos { assert(old_es[j - 1].name@ == k); }
                    }
                    if entries_have(old_es, k) {
                        let j = choose|j: int| 0 <= j < old_es.len() && #[trigger] old_es[j].name@ == k;
                        if j < pos { assert(new_es[j].name@ == k); }
                        else { assert(new_es[j + 1].name@ == k); }
                    }
                    if k == nm { assert(new_es[pos as int].name@ == k); }
                }
                assert forall|k: Seq<char>| #[trigger] entries_map(new_es).contains_key(k) implies entries_map(new_es)[k] == entries_map(old_es).insert(nm, id)[k] by {
                    let j = choose|j: int| 0 <= j < new_es.len() && #[trigger] new_es[j].name@ == k;
                    lemma_entries_map_at(new_es, j);
                    if j < pos {
                        lemma_entries_map_at(old_es, j);
                    } else if j > pos {
                        lemma_entries_map_at(old_es, j - 1);
                    }
                }
                assert(entries_map(new_es) =~= entries_map(old_es).insert(nm, id));
            }
        },
    }
}

/// Removes the entry named `name`, if there is one.
pub fn entries_remove(es: &mut Vec<DirEntry>, name: &String)
    requires
        entries_sorted(old(es)@),
    ensures
        entries_sorted(final(es)@),
        entries_map(final(es)@) == entries_map(old(es)@).remove(name@),
{
    let ghost old_es = es@;
    match entries_find(es, name) {
        Some(i) => {
            es.remove(i);
            proof {
                let new_es = es@;
                assert forall|a: int, b: int| 0 <= a < b < new_es.len() implies name_lt(
                    #[trigger] new_es[a].name@,
                    #[trigger] new_es[b].name@,
                ) by {
                    if b < i {
                        assert(name_lt(old_es[a].name@, old_es[b].name@));
                    } else if a < i {
                        assert(name_lt(old_es[a].name@, old_es[b + 1].name@));
                    } else {
                        assert(name_lt(old_es[a + 1].name@, old_es[b + 1].name@));
                    }
                }
                assert forall|k: Seq<char>| entries_have(new_es, k) <==> (entries_have(old_es, k) && k != name@) by {
                    if entries_have(new_es, k) {
                        let j = choose|j: int| 0 <= j < new_es.len() && #[trigger] new_es[j].name@ == k;
                        if j < i {
                            assert(old_es[j].name@ == k);
                            if k == name@ { lemma_sorted_unique(old_es, j, i as int); }
                        } else {
                            assert(old_es[j + 1].name@ == k);
                            if k == name@ { lemma_sorted_unique(old_es, j + 1, i as int); }
                        }
                    }
                    if entries_have(old_es, k) && k != name@ {
                        let j = choose|j: int| 0 <= j < old_es.len() && #[trigger] old_es[j].name@ == k;
                        if j < i { assert(new_es[j].name@ == k); }
                        else { assert(j != i); assert(new_es[j - 1].name@ == k); }
                    }
                }
                assert forall|k: Seq<char>| #[trigger] entries_map(new_es).contains_key(k) implies entries_map(new_es)[k] == entries_map(old_es).remove(name@)[k] by {
                    let j = choose|j: int| 0 <= j < new_es.len() && #[trigger] new_es[j].name@ == k;
                    lemma_entries_map_at(new_es, j);
                    if j < i {
                        lemma_entries_map_at(old_es, j);
                    } else {
                        lemma_entries_map_at(old_es, j + 1);
                    }
                }
                assert(entries_map(new_es) =~= entries_map(old_es).remove(name@));
            }
        },
        None => {
            assert(entries_map(old_es) =~= entries_map(old_es).remove(name@));
        },
    }
}

/// The set of names of a sorted directory is exactly the domain of its map.
pub proof fn lemma_names_are_domain(es: Seq<DirEntry>)
    requires
        entries_sorted(es),
    ensures
        entries_names(es).to_set() == entries_map(es).dom(),
{
    assert forall|k: Seq<char>| entries_names(es).to_set().contains(k) <==> entries_map(es).dom().contains(k) by {
        if entries_names(es).to_set().contains(k) {
            let j = choose|j: int| 0 <= j < entries_names(es).len() && entries_names(es)[j] == k;
            assert(es[j].name@ == k);
        }
        if entries_have(es, k) {
            let j = choose|j: int| 0 <= j < es.len() && #[trigger] es[j].name@ == k;
            assert(entries_names(es)[j] == k);
        }
    }
    assert(entries_names(es).to_set() =~= entries_map(es).dom());
}

} // verus!
