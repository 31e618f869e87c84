//! Counting occurrences of names.
//!
//! A [`Tally`] says how often each name was recorded. Its model is a
//! multiset of names: recording a name inserts it, merging two tallies adds
//! them, and the count of a name is its multiplicity.

use vstd::prelude::*;
use vstd::multiset::*;
use crate::text::text_equal;

verus! {

broadcast use group_multiset_axioms;

/// The multiset that holds `name` exactly `n` times.
pub open spec fn copies(name: Seq<char>, n: nat) -> Multiset<Seq<char>>
    decreases n,
{
    if n == 0 {
        Multiset::empty()
    } else {
        copies(name, (n - 1) as nat).insert(name)
    }
}

/// What `copies` holds.
pub proof fn lemma_copies(name: Seq<char>, n: nat)
    ensures
        copies(name, n).count(name) == n,
        copies(name, n).len() == n,
        forall|other: Seq<char>| other != name ==> copies(name, n).count(other) == 0,
    decreases n,
{
    if n > 0 {
        lemma_copies(name, (n - 1) as nat);
    }
}

/// The multiset that holds `names[i]` exactly `counts[i]` times, for each `i`.
pub open spec fn bag_of(names: Seq<Seq<char>>, counts: Seq<nat>) -> Multiset<Seq<char>>
    decreases names.len(),
{
    if names.len() == 0 || counts.len() == 0 {
        Multiset::empty()
    } else {
        bag_of(names.drop_last(), counts.drop_last()).add(copies(names.last(), counts.last()))
    }
}

/// The sum of `counts`.
pub open spec fn sum_of(counts: Seq<nat>) -> nat
    decreases counts.len(),
{
    if counts.len() == 0 {
        0
    } else {
        sum_of(counts.drop_last()) + counts.last()
    }
}

/// The texts of a sequence of strings.
pub open spec fn texts_of(names: Seq<String>) -> Seq<Seq<char>> {
    Seq::new(names.len(), |i: int| names[i]@)
}

/// A sequence of machine counts as natural numbers.
pub open spec fn nats_of(counts: Seq<usize>) -> Seq<nat> {
    Seq::new(counts.len(), |i: int| counts[i] as nat)
}

/// Where the names are distinct, the multiplicity of a name in `bag_of` is
/// the count that stands beside it, and zero for a name that is not listed.
pub proof fn lemma_bag_count(names: Seq<Seq<char>>, counts: Seq<nat>, x: Seq<char>)
    requires
        names.len() == counts.len(),
        names.no_duplicates(),
    ensures
        forall|i: int|
            0 <= i < names.len() && names[i] == x ==> bag_of(names, counts).count(x) == counts[i],
        (forall|i: int| 0 <= i < names.len() ==> names[i] != x) ==> bag_of(names, counts).count(x)
            == 0,
    decreases names.len(),
{
    if names.len() > 0 {
        lemma_bag_count(names.drop_last(), counts.drop_last(), x);
        lemma_copies(names.last(), counts.last());
        assert forall|i: int| 0 <= i < names.len() && names[i] == x implies bag_of(
            names,
            counts,
        ).count(x) == counts[i] by {
            if i < names.len() - 1 {
                assert(names.drop_last()[i] == x);
                assert(names.last() != x);
            } else {
                assert forall|j: int| 0 <= j < names.len() - 1 implies names.drop_last()[j]
                    != x by {
                    assert(names[j] != names[i]);
                }
            }
        }
    }
}

/// The size of `bag_of` is the sum of the counts.
pub proof fn lemma_bag_len(names: Seq<Seq<char>>, counts: Seq<nat>)
    requires
        names.len() == counts.len(),
    ensures
        bag_of(names, counts).len() == sum_of(counts),
    decreases names.len(),
{
    if names.len() > 0 {
        lemma_bag_len(names.drop_last(), counts.drop_last());
        lemma_copies(names.last(), counts.last());
    }
}

/// Raising one count by `n` adds `n` copies of its name.
pub proof fn lemma_bag_raise(names: Seq<Seq<char>>, counts: Seq<nat>, i: int, n: nat)
    requires
        names.len() == counts.len(),
        names.no_duplicates(),
        0 <= i < names.len(),
    ensures
        bag_of(names, counts.update(i, (counts[i] + n) as nat)) =~= bag_of(names, counts).add(
            copies(names[i], n),
        ),
        sum_of(counts.update(i, (counts[i] + n) as nat)) == sum_of(counts) + n,
{
    let raised = counts.update(i, (counts[i] + n) as nat);
    lemma_copies(names[i], n);
    assert forall|x: Seq<char>| bag_of(names, raised).count(x) == bag_of(names, counts).add(
        copies(names[i], n),
    ).count(x) by {
        lemma_bag_count(names, counts, x);
        lemma_bag_count(names, raised, x);
        if x != names[i] {
            if exists|j: int| 0 <= j < names.len() && names[j] == x {
                let j = choose|j: int| 0 <= j < names.len() && names[j] == x;
                assert(raised[j] == counts[j]);
            }
        }
    }
    lemma_bag_len(names, counts);
    lemma_bag_len(names, raised);
}

/// Listing a new name with count `n` adds `n` copies of it.
pub proof fn lemma_bag_push(names: Seq<Seq<char>>, counts: Seq<nat>, name: Seq<char>, n: nat)
    requires
        names.len() == counts.len(),
    ensures
        bag_of(names.push(name), counts.push(n)) == bag_of(names, counts).add(copies(name, n)),
        sum_of(counts.push(n)) == sum_of(counts) + n,
{
    assert(names.push(name).drop_last() =~= names);
    assert(counts.push(n).drop_last() =~= counts);
}

/// How often each name was recorded.
#[derive(Debug)]
pub struct Tally {
    names: Vec<String>,
    counts: Vec<usize>,
    total: usize,
}

impl View for Tally {
    type V = Multiset<Seq<char>>;

    closed spec fn view(&self) -> Multiset<Seq<char>> {
        bag_of(texts_of(self.names@), nats_of(self.counts@))
    }
}

impl Tally {
    /// The names are listed once each, beside a positive count, and the
    /// counts add up to the stored total.
    pub closed spec fn wf(&self) -> bool {
        &&& self.names@.len() == self.counts@.len()
        &&& texts_of(self.names@).no_duplicates()
        &&& forall|i: int| 0 <= i < self.counts@.len() ==> self.counts@[i] >= 1
        &&& self.total as nat == sum_of(nats_of(self.counts@))
    }

    /// The names in the order in which they were first recorded.
    pub closed spec fn listed_names(&self) -> Seq<Seq<char>> {
        texts_of(self.names@)
    }

    /// The count beside each listed name.
    pub closed spec fn listed_counts(&self) -> Seq<nat> {
        nats_of(self.counts@)
    }

    /// The listing determines the tally: each listed name occurs as often as
    /// its count says, and no other name occurs.
    pub proof fn lemma_listing(&self)
        requires
            self.wf(),
        ensures
            self.listed_names().len() == self.listed_counts().len(),
            self.listed_names().no_duplicates(),
            self@ == bag_of(self.listed_names(), self.listed_counts()),
            self@.len() == sum_of(self.listed_counts()),
            forall|i: int|
                0 <= i < self.listed_names().len() ==> self.listed_counts()[i] >= 1
                    && self@.count(#[trigger] self.listed_names()[i]) == self.listed_counts()[i],
            forall|x: Seq<char>| self@.count(x) > 0 ==> self.listed_names().contains(x),
    {
        let names = self.listed_names();
        let counts = self.listed_counts();
        lemma_bag_len(names, counts);
        assert forall|i: int| 0 <= i < names.len() implies counts[i] >= 1 && self@.count(
            #[trigger] names[i],
        ) == counts[i] by {
            lemma_bag_count(names, counts, names[i]);
        }
        assert forall|x: Seq<char>| self@.count(x) > 0 implies names.contains(x) by {
            lemma_bag_count(names, counts, x);
        }
    }

    /// A tally in which nothing was recorded.
    pub fn new() -> (tally: Tally)
        ensures
            tally.wf(),
            tally@ == Multiset::<Seq<char>>::empty(),
    {
        Tally { names: Vec::new(), counts: Vec::new(), total: 0 }
    }

    /// The number of recordings, all names together.
    pub fn total(&self) -> (total: usize)
        requires
            self.wf(),
        ensures
            total == self@.len(),
    {
        proof {
            lemma_bag_len(texts_of(self.names@), nats_of(self.counts@));
        }
        self.total
    }

    /// The number of distinct names.
    pub fn len(&self) -> (len: usize)
        requires
            self.wf(),
        ensures
            len == self.listed_names().len(),
    {
        self.names.len()
    }

    /// The `i`-th name in order of first recording.
    pub fn name_at(&self, i: usize) -> (name: &String)
        requires
            self.wf(),
            i < self.listed_names().len(),
        ensures
            name@ == self.listed_names()[i as int],
    {
        &self.names[i]
    }

    /// The count of the `i`-th name.
    pub fn count_at(&self, i: usize) -> (count: usize)
        requires
            self.wf(),
            i < self.listed_names().len(),
        ensures
            count == self.listed_counts()[i as int],
            count == self@.count(self.listed_names()[i as int]),
            count >= 1,
    {
        proof {
            self.lemma_listing();
        }
        self.counts[i]
    }

    /// The position at which `name` is listed, if it is.
    fn position(&self, name: &str) -> (found: Option<usize>)
        requires
            self.wf(),
        ensures
            match found {
                Some(i) => i < self.names@.len() && self.names@[i as int]@ == name@,
                None => forall|i: int| 0 <= i < self.names@.len() ==> self.names@[i]@ != name@,
            },
    {
        let mut i: usize = 0;
        while i < self.names.len()
            invariant
                0 <= i <= self.names@.len(),
                forall|j: int| 0 <= j < i ==> self.names@[j]@ != name@,
            decreases self.names@.len() - i,
        {
            if text_equal(self.names[i].as_str(), name) {
                return Some(i);
            }
            i += 1;
        }
        None
    }

    /// How often `name` was recorded.
    pub fn count_of(&self, name: &str) -> (count: usize)
        requires
            self.wf(),
        ensures
            count == self@.count(name@),
    {
        proof {
            lemma_bag_count(texts_of(self.names@), nats_of(self.counts@), name@);
        }
        match self.position(name) {
            Some(i) => {
                assert(texts_of(self.names@)[i as int] == name@);
                self.counts[i]
            },
            None => 0,
        }
    }

    /// Whether `n` more recordings still fit the machine word.
    pub fn has_room(&self, n: usize) -> (fits: bool)
        requires
            self.wf(),
        ensures
            fits == (self@.len() + n <= usize::MAX),
    {
        proof {
            lemma_bag_len(texts_of(self.names@), nats_of(self.counts@));
        }
        n <= usize::MAX - self.total
    }

    /// Records `name` `n` more times.
    pub fn add(&mut self, name: &str, n: usize)
        requires
            old(self).wf(),
            old(self)@.len() + n <= usize::MAX,
        ensures
            final(self).wf(),
            final(self)@ == old(self)@.add(copies(name@, n as nat)),
    {
        let ghost names = texts_of(self.names@);
        let ghost counts = nats_of(self.counts@);
        proof {
            lemma_bag_len(names, counts);
        }
        if n == 0 {
            assert(self@.add(copies(name@, 0)) =~= self@);
            return ;
        }
        match self.position(name) {
            Some(i) => {
                assert(names[i as int] == name@);
                proof {
                    lemma_bag_raise(names, counts, i as int, n as nat);
                    lemma_bag_count(names, counts, name@);
                }
                let current = self.counts[i];
                self.counts.set(i, current + n);
                self.total = self.total + n;
                assert(nats_of(self.counts@) =~= counts.update(i as int, (counts[i as int] + n) as nat));
                assert(texts_of(self.names@) =~= names);
            },
            None => {
                proof {
                    lemma_bag_push(names, counts, name@, n as nat);
                }
                self.names.push(name.to_owned());
                self.counts.push(n);
                self.total = self.total + n;
                assert(texts_of(self.names@) =~= names.push(name@));
                assert(nats_of(self.counts@) =~= counts.push(n as nat));
            },
        }
    }

    /// Records `name` once more.
    pub fn record(&mut self, name: &str)
        requires
            old(self).wf(),
            old(self)@.len() < usize::MAX,
        ensures
            final(self).wf(),
            final(self)@ == old(self)@.insert(name@),
    {
        proof {
            lemma_copies(name@, 1);
            assert(copies(name@, 1) =~= Multiset::singleton(name@));
        }
        self.add(name, 1);
    }

    /// Adds every recording of `other` to this tally.
    pub fn absorb(&mut self, other: &Tally)
        requires
            old(self).wf(),
            other.wf(),
            old(self)@.len() + other@.len() <= usize::MAX,
        ensures
            final(self).wf(),
            final(self)@ == old(self)@.add(other@),
    {
        let ghost names = texts_of(other.names@);
        let ghost counts = nats_of(other.counts@);
        proof {
            lemma_bag_len(names, counts);
        }
        let mut i: usize = 0;
        assert(names.take(0) =~= Seq::<Seq<char>>::empty());
        assert(self@.add(bag_of(names.take(0), counts.take(0))) =~= self@);
        while i < other.names.len()
            invariant
                0 <= i <= other.names@.len(),
                other.wf(),
                self.wf(),
                names == texts_of(other.names@),
                counts == nats_of(other.counts@),
                names.len() == counts.len(),
                self@ == old(self)@.add(bag_of(names.take(i as int), counts.take(i as int))),
                self@.len() == old(self)@.len() + sum_of(counts.take(i as int)),
                old(self)@.len() + sum_of(counts) <= usize::MAX,
            decreases other.names@.len() - i,
        {
            proof {
                lemma_bag_push(
                    names.take(i as int),
                    counts.take(i as int),
                    names[i as int],
                    counts[i as int],
                );
                assert(names.take(i as int + 1) =~= names.take(i as int).push(names[i as int]));
                assert(counts.take(i as int + 1) =~= counts.take(i as int).push(
                    counts[i as int],
                ));
                lemma_sum_take(counts, i as int + 1);
                lemma_copies(names[i as int], counts[i as int]);
            }
            self.add(other.names[i].as_str(), other.counts[i]);
            assert(self@ =~= old(self)@.add(
                bag_of(names.take(i as int + 1), counts.take(i as int + 1)),
            ));
            i += 1;
        }
        assert(names.take(i as int) =~= names);
        assert(counts.take(i as int) =~= counts);
    }

    /// The names with their counts, in order of first recording.
    pub fn entries(&self) -> (pairs: Vec<(String, usize)>)
        requires
            self.wf(),
        ensures
            pairs@.len() == self.listed_names().len(),
            forall|i: int|
                0 <= i < pairs@.len() ==> (#[trigger] pairs@[i]).0@ == self.listed_names()[i]
                    && pairs@[i].1 == self.listed_counts()[i],
    {
        let mut pairs: Vec<(String, usize)> = Vec::new();
        let mut i: usize = 0;
        while i < self.names.len()
            invariant
                0 <= i <= self.names@.len(),
                self.wf(),
                pairs@.len() == i,
                forall|j: int|
                    0 <= j < i ==> (#[trigger] pairs@[j]).0@ == self.names@[j]@ && pairs@[j].1
                        == self.counts@[j],
            decreases self.names@.len() - i,
        {
            pairs.push((self.names[i].clone(), self.counts[i]));
            i += 1;
        }
        pairs
    }
}

/// A prefix of the counts adds up to no more than all of them.
pub proof fn lemma_sum_take(counts: Seq<nat>, k: int)
    requires
        0 <= k <= counts.len(),
    ensures
        sum_of(counts.take(k)) <= sum_of(counts),
    decreases counts.len(),
{
    if k < counts.len() {
        lemma_sum_take(counts.drop_last(), k);
        assert(counts.drop_last().take(k) =~= counts.take(k));
    } else {
        assert(counts.take(k) =~= counts);
    }
}

impl Clone for Tally {
    fn clone(&self) -> (copy: Tally)
        ensures
            self.wf() ==> copy.wf() && copy@ == self@ && copy.listed_names()
                == self.listed_names() && copy.listed_counts() == self.listed_counts(),
    {
        let mut names: Vec<String> = Vec::new();
        let mut counts: Vec<usize> = Vec::new();
        let mut i: usize = 0;
        let n = if self.names.len() <= self.counts.len() {
            self.names.len()
        } else {
            self.counts.len()
        };
        while i < n
            invariant
                0 <= i <= n,
                n <= self.names@.len(),
                n <= self.counts@.len(),
                names@.len() == i,
                counts@.len() == i,
                forall|j: int| 0 <= j < i ==> names@[j]@ == self.names@[j]@,
                forall|j: int| 0 <= j < i ==> counts@[j] == self.counts@[j],
            decreases n - i,
        {
            names.push(self.names[i].clone());
            counts.push(self.counts[i]);
            i += 1;
        }
        proof {
            if self.wf() {
                assert(texts_of(names@) =~= texts_of(self.names@));
                assert(nats_of(counts@) =~= nats_of(self.counts@));
            }
        }
        Tally { names, counts, total: self.total }
    }
}

} // verus!
