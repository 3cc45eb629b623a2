//! Lists of user identifiers kept sorted and free of duplicates.

use vstd::prelude::*;
use vstd::string::StringSliceAdditionalSpecFns;
use crate::text::{compare, lemma_lex_transitive, lex_lt, utf8, Order};

verus! {

/// Each identifier is smaller, byte by byte, than every later one. Such a
/// list holds nothing twice.
pub open spec fn strictly_sorted(ids: Seq<String>) -> bool {
    forall|i: int, j: int|
        0 <= i < j < ids.len() ==> lex_lt(utf8(#[trigger] ids[i]@), utf8(#[trigger] ids[j]@))
}

/// The identifiers that a list holds.
pub open spec fn names(ids: Seq<String>) -> Set<Seq<char>> {
    Set::new(|name: Seq<char>| exists|i: int| 0 <= i < ids.len() && #[trigger] ids[i]@ == name)
}

/// Puts `id` at its place in the sorted list `ids`, unless it is there
/// already.
pub fn insert_sorted(ids: &mut Vec<String>, id: String)
    requires
        strictly_sorted(old(ids)@),
    ensures
        strictly_sorted(final(ids)@),
        names(final(ids)@) == names(old(ids)@).insert(id@),
{
    let ghost before = ids@;
    let mut at: usize = 0;
    while at < ids.len()
        invariant
            ids@ == before,
            before == old(ids)@,
            strictly_sorted(before),
            at <= ids@.len(),
            forall|j: int| 0 <= j < at ==> lex_lt(utf8(#[trigger] ids@[j]@), utf8(id@)),
        decreases ids@.len() - at,
    {
        match compare(ids[at].as_str(), id.as_str()) {
            Order::Before => {
                at += 1;
            },
            Order::Same => {
                proof {
                    assert(names(before).insert(id@) =~= names(before)) by {
                        assert(before[at as int]@ == id@);
                    }
                }
                return ;
            },
            Order::After => {
                ids.insert(at, id);
                proof {
                    let after = ids@;
                    assert forall|i: int, j: int| 0 <= i < j < after.len() implies lex_lt(
                        utf8(#[trigger] after[i]@),
                        utf8(#[trigger] after[j]@),
                    ) by {
                        if j < at {
                            assert(after[i] == before[i] && after[j] == before[j]);
                        } else if j == at {
                            assert(after[i] == before[i]);
                        } else if i < at {
                            assert(after[i] == before[i] && after[j] == before[j - 1]);
                        } else if i == at {
                            assert(after[j] == before[j - 1]);
                            if j - 1 > at {
                                assert(lex_lt(utf8(before[at as int]@), utf8(before[j - 1]@)));
                                lemma_lex_transitive(
                                    utf8(id@),
                                    utf8(before[at as int]@),
                                    utf8(before[j - 1]@),
                                );
                            }
                        } else {
                            assert(after[i] == before[i - 1] && after[j] == before[j - 1]);
                        }
                    }
                    lemma_names_insert(before, at as int, id);
                }
                return ;
            },
        }
    }
    ids.push(id);
    proof {
        let after = ids@;
        assert forall|i: int, j: int| 0 <= i < j < after.len() implies lex_lt(
            utf8(#[trigger] after[i]@),
            utf8(#[trigger] after[j]@),
        ) by {
            assert(after[i] == before[i]);
            if j < before.len() {
                assert(after[j] == before[j]);
            }
        }
        assert(after =~= before.insert(before.len() as int, id));
        lemma_names_insert(before, before.len() as int, id);
    }
}

/// Inserting into a list adds one name to those it holds.
pub proof fn lemma_names_insert(ids: Seq<String>, at: int, id: String)
    requires
        0 <= at <= ids.len(),
    ensures
        names(ids.insert(at, id)) == names(ids).insert(id@),
{
    let after = ids.insert(at, id);
    assert forall|name: Seq<char>| names(after).contains(name) implies names(ids).insert(
        id@,
    ).contains(name) by {
        let i = choose|i: int| 0 <= i < after.len() && #[trigger] after[i]@ == name;
        if i < at {
            assert(ids[i]@ == name);
        } else if i > at {
            assert(ids[i - 1]@ == name);
        }
    }
    assert forall|name: Seq<char>| names(ids).insert(id@).contains(name) implies names(
        after,
    ).contains(name) by {
        if name == id@ {
            assert(after[at]@ == name);
        } else {
            let i = choose|i: int| 0 <= i < ids.len() && #[trigger] ids[i]@ == name;
            if i < at {
                assert(after[i]@ == name);
            } else {
                assert(after[i + 1]@ == name);
            }
        }
    }
    assert(names(after) =~= names(ids).insert(id@));
}

/// A list one longer holds one name more.
pub proof fn lemma_names_push(ids: Seq<String>, id: String)
    ensures
        names(ids.push(id)) == names(ids).insert(id@),
{
    assert(ids.push(id) =~= ids.insert(ids.len() as int, id));
    lemma_names_insert(ids, ids.len() as int, id);
}

/// Puts each of `more` at its place in the sorted list `ids`.
pub fn insert_all_sorted(ids: &mut Vec<String>, more: &Vec<String>)
    requires
        strictly_sorted(old(ids)@),
    ensures
        strictly_sorted(final(ids)@),
        names(final(ids)@) == names(old(ids)@).union(names(more@)),
{
    let ghost base = names(ids@);
    let mut k: usize = 0;
    proof {
        assert(names(more@.take(0)) =~= Set::<Seq<char>>::empty());
        assert(base.union(Set::empty()) =~= base);
    }
    while k < more.len()
        invariant
            k <= more@.len(),
            strictly_sorted(ids@),
            names(ids@) == base.union(names(more@.take(k as int))),
        decreases more@.len() - k,
    {
        proof {
            let seen = more@.take(k as int);
            assert(more@.take(k + 1) =~= seen.push(more@[k as int]));
            lemma_names_push(seen, more@[k as int]);
            assert(base.union(names(seen)).insert(more@[k as int]@) =~= base.union(
                names(seen).insert(more@[k as int]@),
            ));
        }
        insert_sorted(ids, more[k].clone());
        k += 1;
    }
    proof {
        assert(more@.take(k as int) =~= more@);
    }
}

} // verus!
