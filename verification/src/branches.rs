//! The order in which branches are offered.
//!
//! Branch names are sorted as texts. Then the default branch changes places
//! with the first name: "main" where it is listed, else "master" where that
//! is listed.

use vstd::prelude::*;
use vstd::multiset::*;
use crate::tally::texts_of;
use crate::text::{
    lemma_text_lt_total,
    lemma_text_lt_transitive,
    text_equal,
    text_le,
    text_lt,
    text_precedes,
};

verus! {

broadcast use group_multiset_axioms;

/// No name comes before a name that stands further to the front.
pub open spec fn ascending(names: Seq<Seq<char>>) -> bool {
    forall|i: int, j: int| 0 <= i < j < names.len() ==> text_le(names[i], names[j])
}

/// The first position at which `name` stands in `names`, or the length of
/// `names` where it does not occur.
pub open spec fn first_position(names: Seq<Seq<char>>, name: Seq<char>) -> int
    decreases names.len(),
{
    if names.len() == 0 {
        0
    } else if names[0] == name {
        0
    } else {
        1 + first_position(names.drop_first(), name)
    }
}

/// `first_position` is the first place of the name, and the length where
/// there is none.
pub proof fn lemma_first_position(names: Seq<Seq<char>>, name: Seq<char>)
    ensures
        0 <= first_position(names, name) <= names.len(),
        first_position(names, name) < names.len() ==> names[first_position(names, name)] == name,
        forall|i: int| 0 <= i < first_position(names, name) ==> names[i] != name,
    decreases names.len(),
{
    if names.len() > 0 && names[0] != name {
        lemma_first_position(names.drop_first(), name);
        assert forall|i: int| 0 <= i < first_position(names, name) implies names[i] != name by {
            if i > 0 {
                assert(names.drop_first()[i - 1] == names[i]);
            }
        }
    }
}

/// `names` with the names at the front and at position `i` exchanged.
pub open spec fn exchanged(names: Seq<Seq<char>>, i: int) -> Seq<Seq<char>> {
    names.update(0, names[i]).update(i, names[0])
}

/// The name of the branch that stands first where it is listed.
pub open spec fn main_text() -> Seq<char> {
    "main"@
}

/// The name of the branch that stands first where "main" is not listed.
pub open spec fn master_text() -> Seq<char> {
    "master"@
}

/// `names` with the default branch at the front: "main" changes places
/// with the first name; where "main" is not listed, "master" does; where
/// neither is listed, nothing moves.
pub open spec fn pinned(names: Seq<Seq<char>>) -> Seq<Seq<char>> {
    if names.contains(main_text()) {
        exchanged(names, first_position(names, main_text()))
    } else if names.contains(master_text()) {
        exchanged(names, first_position(names, master_text()))
    } else {
        names
    }
}

/// `ordered` is a list of names in ascending order with the default branch
/// put at the front.
pub open spec fn is_branch_order(ordered: Seq<Seq<char>>) -> bool {
    exists|sorted: Seq<Seq<char>>| #[trigger] ascending(sorted) && ordered == pinned(sorted)
}

/// `sorted` holds the names of `names`, each as often, in ascending order.
pub open spec fn is_sorting_of(sorted: Seq<Seq<char>>, names: Seq<Seq<char>>) -> bool {
    ascending(sorted) && sorted.to_multiset() == names.to_multiset()
}

/// Names have one ascending order: two sortings of the same names are the
/// same sequence.
pub proof fn lemma_sorting_unique(first: Seq<Seq<char>>, second: Seq<Seq<char>>, names: Seq<
    Seq<char>,
>)
    requires
        is_sorting_of(first, names),
        is_sorting_of(second, names),
    ensures
        first == second,
{
    lemma_ascending_unique(first, second);
}

/// Two ascending sequences that hold the same names, each as often, are
/// the same sequence.
pub proof fn lemma_ascending_unique(first: Seq<Seq<char>>, second: Seq<Seq<char>>)
    requires
        ascending(first),
        ascending(second),
        first.to_multiset() == second.to_multiset(),
    ensures
        first == second,
    decreases first.len(),
{
    broadcast use vstd::seq_lib::group_to_multiset_ensures;

    first.to_multiset_ensures();
    second.to_multiset_ensures();
    if first.len() == 0 {
        assert(second.len() == 0);
        assert(first =~= second);
    } else {
        assert(second.len() == first.len());
        let a = first[0];
        let b = second[0];
        assert(first.contains(a));
        assert(second.to_multiset().count(a) > 0);
        assert(second.contains(a));
        let j = choose|j: int| 0 <= j < second.len() && second[j] == a;
        assert(second.contains(b));
        assert(first.to_multiset().count(b) > 0);
        assert(first.contains(b));
        let i = choose|i: int| 0 <= i < first.len() && first[i] == b;
        // `b` does not come after `a`, nor `a` after `b`.
        assert(text_le(b, a)) by {
            if j > 0 {
                assert(text_le(second[0], second[j]));
            }
        }
        assert(text_le(a, b)) by {
            if i > 0 {
                assert(text_le(first[0], first[i]));
            }
        }
        if a != b {
            crate::text::lemma_text_lt_asymmetric(a, b);
        }
        assert(a == b);
        let rest_first = first.drop_first();
        let rest_second = second.drop_first();
        assert(rest_first =~= first.remove(0));
        assert(rest_second =~= second.remove(0));
        assert(rest_first.to_multiset() =~= first.to_multiset().remove(a));
        assert(rest_second.to_multiset() =~= second.to_multiset().remove(b));
        assert forall|x: int, y: int| 0 <= x < y < rest_first.len() implies text_le(
            rest_first[x],
            rest_first[y],
        ) by {
            assert(text_le(first[x + 1], first[y + 1]));
        }
        assert forall|x: int, y: int| 0 <= x < y < rest_second.len() implies text_le(
            rest_second[x],
            rest_second[y],
        ) by {
            assert(text_le(second[x + 1], second[y + 1]));
        }
        lemma_ascending_unique(rest_first, rest_second);
        assert(first =~= seq![a] + rest_first);
        assert(second =~= seq![b] + rest_second);
    }
}

/// Putting a name into a sequence adds it to the names that the sequence
/// holds.
pub proof fn lemma_insert_to_multiset(names: Seq<Seq<char>>, at: int, name: Seq<char>)
    requires
        0 <= at <= names.len(),
    ensures
        names.insert(at, name).to_multiset() == names.to_multiset().insert(name),
{
    broadcast use vstd::seq_lib::group_to_multiset_ensures;

    let longer = names.insert(at, name);
    longer.to_multiset_ensures();
    assert(longer.remove(at) =~= names);
    assert(longer[at] == name);
    assert(longer.to_multiset().count(name) > 0) by {
        assert(longer.contains(name));
    }
    assert(names.to_multiset() =~= longer.to_multiset().remove(name));
    assert(longer.to_multiset() =~= names.to_multiset().insert(name));
}

/// The place of `name` among the ascending `sorted`: behind every name that
/// does not come after it.
fn place_for(sorted: &Vec<String>, name: &str) -> (at: usize)
    requires
        ascending(texts_of(sorted@)),
    ensures
        at <= sorted@.len(),
        forall|i: int| 0 <= i < at ==> text_le(texts_of(sorted@)[i], name@),
        forall|i: int| at <= i < sorted@.len() ==> text_lt(name@, texts_of(sorted@)[i]),
{
    let ghost texts = texts_of(sorted@);
    let mut at: usize = 0;
    while at < sorted.len() && !text_precedes(name, sorted[at].as_str())
        invariant
            0 <= at <= sorted@.len(),
            texts == texts_of(sorted@),
            forall|i: int| 0 <= i < at ==> text_le(texts[i], name@),
        decreases sorted@.len() - at,
    {
        proof {
            lemma_text_lt_total(texts[at as int], name@);
        }
        at += 1;
    }
    proof {
        assert forall|i: int| at <= i < sorted@.len() implies text_lt(name@, texts[i]) by {
            assert(text_lt(name@, texts[at as int]));
            if i > at {
                assert(text_le(texts[at as int], texts[i]));
                if texts[at as int] != texts[i] {
                    lemma_text_lt_transitive(name@, texts[at as int], texts[i]);
                }
            }
        }
    }
    at
}

/// Sorts names in ascending order of their texts.
pub fn sort_names(names: Vec<String>) -> (sorted: Vec<String>)
    ensures
        is_sorting_of(texts_of(sorted@), texts_of(names@)),
{
    let ghost all = texts_of(names@);
    let ghost given = names@;
    let mut sorted: Vec<String> = Vec::new();
    assert(all.take(0) =~= Seq::<Seq<char>>::empty());
    assert(texts_of(sorted@) =~= Seq::<Seq<char>>::empty());
    for name in iter: names
        invariant
            iter.seq() == given,
            all == texts_of(given),
            ascending(texts_of(sorted@)),
            texts_of(sorted@).to_multiset() == all.take(iter.index() as int).to_multiset(),
    {
        let ghost before = texts_of(sorted@);
        let ghost done = iter.index() as int;
        let at = place_for(&sorted, name.as_str());
        proof {
            broadcast use vstd::seq_lib::group_to_multiset_ensures;

            lemma_insert_to_multiset(before, at as int, name@);
            assert(all.take(done + 1) =~= all.take(done).push(name@));
            let after = before.insert(at as int, name@);
            assert forall|i: int, j: int| 0 <= i < j < after.len() implies text_le(
                after[i],
                after[j],
            ) by {
                if j < at {
                    assert(after[i] == before[i] && after[j] == before[j]);
                } else if j == at {
                    assert(after[i] == before[i]);
                    lemma_text_lt_total(after[i], after[j]);
                } else if i < at {
                    assert(after[i] == before[i] && after[j] == before[j - 1]);
                    if before[i] != name@ {
                        lemma_text_lt_transitive(before[i], name@, before[j - 1]);
                    }
                } else if i == at {
                    assert(after[j] == before[j - 1]);
                } else {
                    assert(after[i] == before[i - 1] && after[j] == before[j - 1]);
                }
            }
        }
        sorted.insert(at, name);
        assert(texts_of(sorted@) =~= before.insert(at as int, name@));
    }
    assert(all.take(all.len() as int) =~= all);
    sorted
}

/// The first position at which `name` stands in `names`, if it is listed.
pub fn position_of(names: &Vec<String>, name: &str) -> (found: Option<usize>)
    ensures
        found is Some <==> texts_of(names@).contains(name@),
        found matches Some(i) ==> i < names@.len() && i == first_position(
            texts_of(names@),
            name@,
        ),
{
    let ghost texts = texts_of(names@);
    let mut i: usize = 0;
    while i < names.len()
        invariant
            0 <= i <= names@.len(),
            texts == texts_of(names@),
            forall|j: int| 0 <= j < i ==> texts[j] != name@,
        decreases names@.len() - i,
    {
        if text_equal(names[i].as_str(), name) {
            proof {
                assert(texts[i as int] == name@);
                lemma_first_position(texts, name@);
            }
            return Some(i);
        }
        i += 1;
    }
    None
}

/// Exchanges the names at the front and at position `i`.
fn exchange_with_front(names: &mut Vec<String>, i: usize)
    requires
        i < old(names)@.len(),
    ensures
        texts_of(final(names)@) == exchanged(texts_of(old(names)@), i as int),
{
    let ghost before = texts_of(names@);
    if i != 0 {
        let mut held = String::new();
        names.set_and_swap(i, &mut held);
        names.set_and_swap(0, &mut held);
        names.set_and_swap(i, &mut held);
    }
    assert(texts_of(names@) =~= exchanged(before, i as int));
}

/// Puts the default branch at the front: "main" where it is listed, else
/// "master" where that is listed. The branch changes places with the name
/// that stood first.
pub fn pin_default_branch(names: Vec<String>) -> (ordered: Vec<String>)
    ensures
        texts_of(ordered@) == pinned(texts_of(names@)),
{
    let mut names = names;
    match position_of(&names, "main") {
        Some(i) => {
            exchange_with_front(&mut names, i);
        },
        None => match position_of(&names, "master") {
            Some(i) => {
                exchange_with_front(&mut names, i);
            },
            None => {},
        },
    }
    names
}

/// The order in which branches are offered: sorted by name, then the
/// default branch ("main", else "master") in the place of the first.
pub fn order_branches(names: Vec<String>) -> (ordered: Vec<String>)
    ensures
        exists|sorted: Seq<Seq<char>>| #[trigger]
            is_sorting_of(sorted, texts_of(names@)) && texts_of(ordered@) == pinned(sorted),
{
    let sorted = sort_names(names);
    pin_default_branch(sorted)
}

/// The names that a listing could read, in the order of the listing.
pub open spec fn readable(listed: Seq<Option<String>>) -> Seq<Seq<char>>
    decreases listed.len(),
{
    if listed.len() == 0 {
        Seq::empty()
    } else {
        match listed.last() {
            Some(name) => readable(listed.drop_last()).push(name@),
            None => readable(listed.drop_last()),
        }
    }
}

/// Keeps the names that a listing could read.
pub fn readable_names(listed: Vec<Option<String>>) -> (names: Vec<String>)
    ensures
        texts_of(names@) == readable(listed@),
{
    let ghost all = listed@;
    let mut names: Vec<String> = Vec::new();
    assert(all.take(0) =~= Seq::<Option<String>>::empty());
    assert(texts_of(names@) =~= Seq::<Seq<char>>::empty());
    for item in iter: listed
        invariant
            iter.seq() == all,
            texts_of(names@) == readable(all.take(iter.index() as int)),
    {
        let ghost before = texts_of(names@);
        let ghost done = iter.index() as int;
        proof {
            assert(all.take(done + 1).drop_last() =~= all.take(done));
            assert(all.take(done + 1).last() == item);
        }
        match item {
            Some(name) => {
                names.push(name);
                assert(texts_of(names@) =~= before.push(name@));
            },
            None => {},
        }
    }
    assert(all.take(all.len() as int) =~= all);
    names
}

} // verus!
