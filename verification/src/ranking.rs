//! The contributors with the most commits.
//!
//! Contributors are ranked by their commit count, the larger count first.
//! Contributors with the same count are ranked by name, in ascending order
//! of the texts, so that the ranking is the same however the counts came
//! about.

use vstd::prelude::*;
use vstd::multiset::*;
use crate::tally::Tally;
use crate::text::{
    lemma_text_lt_asymmetric,
    lemma_text_lt_total,
    lemma_text_lt_transitive,
    text_lt,
    text_precedes,
};

verus! {

broadcast use group_multiset_axioms;

/// A name with its count.
pub type Ranked = (Seq<char>, nat);

/// Whether `a` ranks strictly before `b`: by the larger count, and among
/// equal counts by the name that comes first.
pub open spec fn ranks_before(a: Ranked, b: Ranked) -> bool {
    a.1 > b.1 || (a.1 == b.1 && text_lt(a.0, b.0))
}

/// The ranking is transitive.
pub proof fn lemma_ranks_transitive(a: Ranked, b: Ranked, c: Ranked)
    requires
        ranks_before(a, b),
        ranks_before(b, c),
    ensures
        ranks_before(a, c),
{
    if a.1 == b.1 && b.1 == c.1 {
        lemma_text_lt_transitive(a.0, b.0, c.0);
    }
}

/// Of two entries with different names one ranks before the other.
pub proof fn lemma_ranks_total(a: Ranked, b: Ranked)
    requires
        a.0 != b.0,
    ensures
        ranks_before(a, b) || ranks_before(b, a),
{
    lemma_text_lt_total(a.0, b.0);
}

/// Two entries never rank each before the other, and none before itself.
pub proof fn lemma_ranks_asymmetric(a: Ranked, b: Ranked)
    requires
        ranks_before(a, b),
    ensures
        !ranks_before(b, a),
        a != b,
{
    if a.1 == b.1 {
        lemma_text_lt_asymmetric(a.0, b.0);
    }
}

/// The models of a sequence of pairs.
pub open spec fn pairs_of(pairs: Seq<(String, usize)>) -> Seq<Ranked> {
    Seq::new(pairs.len(), |i: int| (pairs[i].0@, pairs[i].1 as nat))
}

/// Whether `name` is one of the names of `top`.
pub open spec fn lists(top: Seq<Ranked>, name: Seq<char>) -> bool {
    exists|i: int| 0 <= i < top.len() && (#[trigger] top[i]).0 == name
}

/// `top` is the head of the ranking of `bag`, `limit` entries long or, where
/// `bag` has fewer names, all of it: its entries are names of `bag` with
/// their counts, each ranks strictly before the next, and every name that
/// it leaves out ranks after all of its entries.
pub open spec fn is_top_ranking(bag: Multiset<Seq<char>>, top: Seq<Ranked>, limit: nat) -> bool {
    &&& top.len() <= limit
    &&& forall|i: int|
        0 <= i < top.len() ==> (#[trigger] top[i]).1 > 0 && top[i].1 == bag.count(top[i].0)
    &&& forall|i: int, j: int|
        0 <= i < j < top.len() ==> ranks_before(#[trigger] top[i], #[trigger] top[j])
    &&& forall|name: Seq<char>, i: int|
        bag.count(name) > 0 && !lists(top, name) && 0 <= i < top.len() ==> ranks_before(
            #[trigger] top[i],
            (name, #[trigger] bag.count(name)),
        )
    &&& top.len() < limit ==> forall|name: Seq<char>| #[trigger]
        bag.count(name) > 0 ==> lists(top, name)
}

/// The head of a ranking is in descending order of the counts.
pub proof fn lemma_top_ranking_descends(bag: Multiset<Seq<char>>, top: Seq<Ranked>, limit: nat)
    requires
        is_top_ranking(bag, top, limit),
    ensures
        forall|i: int, j: int| 0 <= i < j < top.len() ==> top[i].1 >= top[j].1,
        forall|i: int, j: int| 0 <= i < j < top.len() ==> top[i].0 != top[j].0,
{
    assert forall|i: int, j: int| 0 <= i < j < top.len() implies top[i].1 >= top[j].1 && top[i].0
        != top[j].0 by {
        assert(ranks_before(top[i], top[j]));
        lemma_ranks_asymmetric(top[i], top[j]);
        if top[i].0 == top[j].0 {
            assert(top[i].1 == bag.count(top[i].0));
            assert(top[j].1 == bag.count(top[j].0));
        }
    }
}

/// A ranking has one head of each length: two sequences that are both the
/// head of the ranking of `bag` under the same limit are the same sequence.
pub proof fn lemma_top_ranking_unique(
    bag: Multiset<Seq<char>>,
    first: Seq<Ranked>,
    second: Seq<Ranked>,
    limit: nat,
)
    requires
        is_top_ranking(bag, first, limit),
        is_top_ranking(bag, second, limit),
    ensures
        first == second,
{
    if first.len() <= second.len() {
        lemma_same_until(bag, first, second, limit, first.len() as int);
        if first.len() < second.len() {
            // `second` lists a name that `first` leaves out although it has room.
            let extra = second[first.len() as int];
            assert(bag.count(extra.0) > 0);
            assert(lists(first, extra.0));
            let i = choose|i: int| 0 <= i < first.len() && (#[trigger] first[i]).0 == extra.0;
            assert(second[i] == first[i]);
            lemma_top_ranking_descends(bag, second, limit);
        }
        assert(first =~= second);
    } else {
        lemma_same_until(bag, second, first, limit, second.len() as int);
        let extra = first[second.len() as int];
        assert(bag.count(extra.0) > 0);
        assert(lists(second, extra.0));
        let i = choose|i: int| 0 <= i < second.len() && (#[trigger] second[i]).0 == extra.0;
        assert(first[i] == second[i]);
        lemma_top_ranking_descends(bag, first, limit);
        assert(first =~= second);
    }
}

/// Two heads of the same ranking agree on their first `k` entries.
proof fn lemma_same_until(
    bag: Multiset<Seq<char>>,
    first: Seq<Ranked>,
    second: Seq<Ranked>,
    limit: nat,
    k: int,
)
    requires
        is_top_ranking(bag, first, limit),
        is_top_ranking(bag, second, limit),
        0 <= k <= first.len(),
        k <= second.len(),
    ensures
        forall|i: int| 0 <= i < k ==> first[i] == second[i],
    decreases k,
{
    if k > 0 {
        lemma_same_until(bag, first, second, limit, k - 1);
        let a = first[k - 1];
        let b = second[k - 1];
        lemma_top_ranking_descends(bag, first, limit);
        lemma_top_ranking_descends(bag, second, limit);
        assert(a.1 == bag.count(a.0) && b.1 == bag.count(b.0));
        if a.0 != b.0 {
            lemma_ranks_total(a, b);
            lemma_misplaced(bag, first, second, limit, k - 1);
            lemma_misplaced(bag, second, first, limit, k - 1);
        }
    }
}

/// Where two heads of a ranking agree before position `at`, the entry of
/// `first` at that position does not rank before the entry of `second`
/// there, unless they are the same.
proof fn lemma_misplaced(
    bag: Multiset<Seq<char>>,
    first: Seq<Ranked>,
    second: Seq<Ranked>,
    limit: nat,
    at: int,
)
    requires
        is_top_ranking(bag, first, limit),
        is_top_ranking(bag, second, limit),
        0 <= at < first.len(),
        at < second.len(),
        forall|i: int| 0 <= i < at ==> first[i] == second[i],
    ensures
        !ranks_before(first[at], second[at]),
{
    let a = first[at];
    let b = second[at];
    if !ranks_before(a, b) {
        return ;
    }
    assert(a.1 == bag.count(a.0));
    assert(bag.count(a.0) > 0);
    if lists(second, a.0) {
        let j = choose|j: int| 0 <= j < second.len() && (#[trigger] second[j]).0 == a.0;
        assert(second[j].1 == bag.count(a.0));
        assert(second[j] == a);
        if j < at {
            // `a` stands twice in `first`.
            assert(first[j] == a);
            lemma_top_ranking_descends(bag, first, limit);
        } else if j == at {
            lemma_ranks_asymmetric(a, b);
        } else {
            assert(ranks_before(second[at], second[j]));
            lemma_ranks_asymmetric(a, b);
        }
    } else {
        assert(ranks_before(second[at], (a.0, bag.count(a.0))));
        lemma_ranks_asymmetric(a, b);
    }
}

/// Whether the entry `(name_a, count_a)` ranks strictly before
/// `(name_b, count_b)`.
pub fn ranks_first(name_a: &str, count_a: usize, name_b: &str, count_b: usize) -> (before: bool)
    ensures
        before == ranks_before((name_a@, count_a as nat), (name_b@, count_b as nat)),
{
    count_a > count_b || (count_a == count_b && text_precedes(name_a, name_b))
}

/// The entry of a tally at position `i`.
pub open spec fn entry_at(tally: &Tally, i: int) -> Ranked {
    (tally.listed_names()[i], tally.listed_counts()[i])
}

/// Whether the entry at `i` comes after the entry at `last` in the ranking;
/// every entry does where there is no `last`.
pub open spec fn comes_after(tally: &Tally, last: Option<usize>, i: int) -> bool {
    match last {
        Some(l) => ranks_before(entry_at(tally, l as int), entry_at(tally, i)),
        None => true,
    }
}

/// The position of the entry that ranks first among those that come after
/// the entry at `last`, if there is one.
fn next_in_rank(tally: &Tally, last: Option<usize>) -> (best: Option<usize>)
    requires
        tally.wf(),
        last matches Some(l) ==> l < tally.listed_names().len(),
    ensures
        match best {
            Some(b) => b < tally.listed_names().len() && comes_after(tally, last, b as int)
                && forall|i: int|
                0 <= i < tally.listed_names().len() && comes_after(tally, last, i) && i != b
                    ==> ranks_before(entry_at(tally, b as int), #[trigger] entry_at(tally, i)),
            None => forall|i: int|
                0 <= i < tally.listed_names().len() ==> !comes_after(tally, last, i),
        },
{
    let n = tally.len();
    let mut best: Option<usize> = None;
    let mut i: usize = 0;
    proof {
        tally.lemma_listing();
    }
    while i < n
        invariant
            0 <= i <= n,
            n == tally.listed_names().len(),
            tally.wf(),
            tally.listed_names().no_duplicates(),
            last matches Some(l) ==> l < n,
            match best {
                Some(b) => b < i && comes_after(tally, last, b as int) && forall|j: int|
                    0 <= j < i && comes_after(tally, last, j) && j != b ==> ranks_before(
                        entry_at(tally, b as int),
                        #[trigger] entry_at(tally, j),
                    ),
                None => forall|j: int| 0 <= j < i ==> !comes_after(tally, last, j),
            },
        decreases n - i,
    {
        let eligible = match last {
            Some(l) => ranks_first(
                tally.name_at(l).as_str(),
                tally.count_at(l),
                tally.name_at(i).as_str(),
                tally.count_at(i),
            ),
            None => true,
        };
        if eligible {
            match best {
                Some(b) => {
                    let better = ranks_first(
                        tally.name_at(i).as_str(),
                        tally.count_at(i),
                        tally.name_at(b).as_str(),
                        tally.count_at(b),
                    );
                    proof {
                        let here = entry_at(tally, i as int);
                        let held = entry_at(tally, b as int);
                        assert(tally.listed_names()[i as int] != tally.listed_names()[b as int]);
                        lemma_ranks_total(here, held);
                        if better {
                            assert forall|j: int|
                                0 <= j < i + 1 && comes_after(tally, last, j) && j
                                    != i implies ranks_before(
                                here,
                                #[trigger] entry_at(tally, j),
                            ) by {
                                if j != b {
                                    lemma_ranks_transitive(here, held, entry_at(tally, j));
                                }
                            }
                        }
                    }
                    if better {
                        best = Some(i);
                    }
                },
                None => {
                    best = Some(i);
                },
            }
        }
        i += 1;
    }
    best
}

/// The `limit` contributors with the most commits, in the order of the
/// ranking; all of them where there are fewer.
pub fn top_contributors(tally: &Tally, limit: usize) -> (top: Vec<(String, usize)>)
    requires
        tally.wf(),
    ensures
        is_top_ranking(tally@, pairs_of(top@), limit as nat),
        top@.len() <= limit,
        forall|i: int, j: int| 0 <= i < j < top@.len() ==> top@[i].1 >= top@[j].1,
{
    let mut top: Vec<(String, usize)> = Vec::new();
    let mut last: Option<usize> = None;
    let ghost names = tally.listed_names();
    let ghost counts = tally.listed_counts();
    let ghost mut picked: Seq<int> = Seq::empty();
    proof {
        tally.lemma_listing();
    }
    while top.len() < limit
        invariant
            tally.wf(),
            names == tally.listed_names(),
            counts == tally.listed_counts(),
            names.len() == counts.len(),
            names.no_duplicates(),
            top@.len() <= limit,
            picked.len() == top@.len(),
            forall|k: int|
                0 <= k < picked.len() ==> 0 <= #[trigger] picked[k] < names.len() && pairs_of(
                    top@,
                )[k] == entry_at(tally, picked[k]),
            last is Some <==> picked.len() > 0,
            last matches Some(l) ==> l == picked.last(),
            forall|i: int, j: int|
                0 <= i < j < top@.len() ==> ranks_before(
                    #[trigger] pairs_of(top@)[i],
                    #[trigger] pairs_of(top@)[j],
                ),
            forall|i: int|
                0 <= i < names.len() ==> comes_after(tally, last, i) || #[trigger] picked.contains(
                    i,
                ),
        decreases limit - top@.len(),
    {
        let next = next_in_rank(tally, last);
        match next {
            Some(b) => {
                let ghost before = pairs_of(top@);
                let ghost old_picked = picked;
                let ghost old_last = last;
                let name = tally.name_at(b).clone();
                let count = tally.count_at(b);
                top.push((name, count));
                proof {
                    picked = picked.push(b as int);
                    let here = entry_at(tally, b as int);
                    assert(pairs_of(top@) =~= before.push(here));
                    assert forall|k: int| 0 <= k < picked.len() implies 0 <= #[trigger] picked[k]
                        < names.len() && pairs_of(top@)[k] == entry_at(tally, picked[k]) by {
                        if k < old_picked.len() {
                            assert(picked[k] == old_picked[k]);
                        }
                    }
                    assert forall|i: int, j: int| 0 <= i < j < top@.len() implies ranks_before(
                        #[trigger] pairs_of(top@)[i],
                        #[trigger] pairs_of(top@)[j],
                    ) by {
                        if j == top@.len() - 1 {
                            let l = old_picked.last();
                            assert(before[before.len() - 1] == entry_at(tally, l));
                            if i < before.len() - 1 {
                                assert(ranks_before(before[i], before[before.len() - 1]));
                                lemma_ranks_transitive(before[i], entry_at(tally, l), here);
                            }
                        } else {
                            assert(pairs_of(top@)[i] == before[i]);
                            assert(pairs_of(top@)[j] == before[j]);
                        }
                    }
                    assert forall|i: int| 0 <= i < names.len() implies comes_after(
                        tally,
                        Some(b),
                        i,
                    ) || #[trigger] picked.contains(i) by {
                        if old_picked.contains(i) {
                            let k = choose|k: int| 0 <= k < old_picked.len() && old_picked[k] == i;
                            assert(picked[k] == i);
                        } else if i == b {
                            assert(picked[picked.len() - 1] == i);
                        } else {
                            assert(comes_after(tally, old_last, i));
                            assert(ranks_before(here, entry_at(tally, i)));
                        }
                    }
                }
                last = Some(b);
            },
            None => {
                proof {
                    lemma_is_top(tally, pairs_of(top@), picked, limit as nat, true);
                    assert forall|i: int, j: int| 0 <= i < j < top@.len() implies top@[i].1
                        >= top@[j].1 by {
                        assert(pairs_of(top@)[i].1 >= pairs_of(top@)[j].1);
                    }
                }
                return top;
            },
        }
    }
    proof {
        lemma_is_top(tally, pairs_of(top@), picked, limit as nat, false);
        assert forall|i: int, j: int| 0 <= i < j < top@.len() implies top@[i].1 >= top@[j].1 by {
            assert(pairs_of(top@)[i].1 >= pairs_of(top@)[j].1);
        }
    }
    top
}

/// What the selection has picked is the head of the ranking.
proof fn lemma_is_top(
    tally: &Tally,
    top: Seq<Ranked>,
    picked: Seq<int>,
    limit: nat,
    exhausted: bool,
)
    requires
        tally.wf(),
        top.len() <= limit,
        picked.len() == top.len(),
        forall|k: int|
            0 <= k < picked.len() ==> 0 <= #[trigger] picked[k] < tally.listed_names().len()
                && top[k] == entry_at(tally, picked[k]),
        forall|i: int, j: int|
            0 <= i < j < top.len() ==> ranks_before(#[trigger] top[i], #[trigger] top[j]),
        forall|i: int|
            0 <= i < tally.listed_names().len() ==> (picked.len() > 0 && ranks_before(
                top.last(),
                entry_at(tally, i),
            )) || (picked.len() == 0 && !exhausted) || #[trigger] picked.contains(i),
        exhausted ==> forall|i: int|
            0 <= i < tally.listed_names().len() ==> #[trigger] picked.contains(i),
        !exhausted ==> top.len() == limit,
    ensures
        is_top_ranking(tally@, top, limit),
        forall|i: int, j: int| 0 <= i < j < top.len() ==> top[i].1 >= top[j].1,
{
    tally.lemma_listing();
    let names = tally.listed_names();
    let counts = tally.listed_counts();
    let bag = tally@;
    assert forall|i: int| 0 <= i < top.len() implies (#[trigger] top[i]).1 > 0 && top[i].1
        == bag.count(top[i].0) by {
        assert(top[i] == entry_at(tally, picked[i]));
        assert(bag.count(names[picked[i]]) == counts[picked[i]]);
    }
    assert forall|name: Seq<char>, i: int|
        bag.count(name) > 0 && !lists(top, name) && 0 <= i < top.len() implies ranks_before(
        #[trigger] top[i],
        (name, #[trigger] bag.count(name)),
    ) by {
        assert(names.contains(name));
        let at = choose|at: int| 0 <= at < names.len() && names[at] == name;
        assert(bag.count(names[at]) == counts[at]);
        if picked.contains(at) {
            let k = choose|k: int| 0 <= k < picked.len() && picked[k] == at;
            assert(top[k].0 == name);
        } else {
            assert(ranks_before(top.last(), entry_at(tally, at)));
            if i < top.len() - 1 {
                assert(ranks_before(top[i], top[top.len() - 1]));
                lemma_ranks_transitive(top[i], top.last(), entry_at(tally, at));
            }
        }
    }
    if top.len() < limit {
        assert forall|name: Seq<char>| #[trigger] bag.count(name) > 0 implies lists(top, name) by {
            assert(names.contains(name));
            let at = choose|at: int| 0 <= at < names.len() && names[at] == name;
            assert(picked.contains(at));
            let k = choose|k: int| 0 <= k < picked.len() && picked[k] == at;
            assert(top[k].0 == name);
        }
    }
    assert forall|i: int, j: int| 0 <= i < j < top.len() implies top[i].1 >= top[j].1 by {
        assert(ranks_before(top[i], top[j]));
    }
}

} // verus!
