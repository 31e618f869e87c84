//! Keeping finished analyses.
//!
//! The cache maps a key, the branch and the contributor filter of an
//! analysis, to its result. A key is looked up by exact match; storing under
//! a key that is present replaces its result; nothing is ever dropped but by
//! `clear`.

use vstd::prelude::*;
use crate::types::{AnalysisResult, CacheKey, ResultModel};

verus! {

/// The model of a key: the branch and the contributor.
pub type KeyModel = (Seq<char>, Seq<char>);

/// The keys of a sequence of cache keys.
pub open spec fn keys_of(keys: Seq<CacheKey>) -> Seq<KeyModel> {
    Seq::new(keys.len(), |i: int| keys[i]@)
}

/// The models of a sequence of results.
pub open spec fn results_of(results: Seq<AnalysisResult>) -> Seq<ResultModel> {
    Seq::new(results.len(), |i: int| results[i]@)
}

/// The map that takes `keys[i]` to `results[i]`, for each `i`.
pub open spec fn map_of(keys: Seq<KeyModel>, results: Seq<ResultModel>) -> Map<
    KeyModel,
    ResultModel,
>
    decreases keys.len(),
{
    if keys.len() == 0 || results.len() == 0 {
        Map::empty()
    } else {
        map_of(keys.drop_last(), results.drop_last()).insert(keys.last(), results.last())
    }
}

/// Where the keys are distinct, the map takes each key to the result that
/// stands beside it, and holds no other key.
pub proof fn lemma_map_of(keys: Seq<KeyModel>, results: Seq<ResultModel>)
    requires
        keys.len() == results.len(),
        keys.no_duplicates(),
    ensures
        forall|i: int|
            0 <= i < keys.len() ==> map_of(keys, results).contains_key(#[trigger] keys[i])
                && map_of(keys, results)[keys[i]] == results[i],
        forall|key: KeyModel| #[trigger]
            map_of(keys, results).contains_key(key) ==> keys.contains(key),
    decreases keys.len(),
{
    if keys.len() > 0 {
        let front = keys.drop_last();
        lemma_map_of(front, results.drop_last());
        assert forall|i: int| 0 <= i < keys.len() implies map_of(keys, results).contains_key(
            #[trigger] keys[i],
        ) && map_of(keys, results)[keys[i]] == results[i] by {
            if i < keys.len() - 1 {
                assert(front[i] == keys[i]);
                assert(keys[i] != keys.last());
                assert(results.drop_last()[i] == results[i]);
            }
        }
        assert forall|key: KeyModel| #[trigger]
            map_of(keys, results).contains_key(key) implies keys.contains(key) by {
            if key == keys.last() {
                assert(keys[keys.len() - 1] == key);
            } else {
                assert(map_of(front, results.drop_last()).contains_key(key));
                assert(front.contains(key));
                let i = choose|i: int| 0 <= i < front.len() && front[i] == key;
                assert(keys[i] == key);
            }
        }
    }
}

/// Keeps the results of finished analyses by branch and contributor.
#[derive(Debug)]
pub struct CacheManager {
    keys: Vec<CacheKey>,
    results: Vec<AnalysisResult>,
}

impl View for CacheManager {
    type V = Map<KeyModel, ResultModel>;

    closed spec fn view(&self) -> Map<KeyModel, ResultModel> {
        map_of(keys_of(self.keys@), results_of(self.results@))
    }
}

impl CacheManager {
    /// Every key is kept once, beside a well-formed result.
    pub closed spec fn wf(&self) -> bool {
        &&& self.keys@.len() == self.results@.len()
        &&& keys_of(self.keys@).no_duplicates()
        &&& forall|i: int| 0 <= i < self.results@.len() ==> (#[trigger] self.results@[i]).wf()
    }

    /// A cache that holds nothing.
    pub fn new() -> (cache: CacheManager)
        ensures
            cache.wf(),
            cache@ == Map::<KeyModel, ResultModel>::empty(),
    {
        CacheManager { keys: Vec::new(), results: Vec::new() }
    }

    /// The number of results kept.
    pub fn len(&self) -> (len: usize)
        requires
            self.wf(),
        ensures
            len == self@.dom().len(),
            self@.dom().finite(),
    {
        proof {
            lemma_map_len(keys_of(self.keys@), results_of(self.results@));
        }
        self.keys.len()
    }

    /// The position at which `key` is kept, if it is.
    fn position(&self, key: &CacheKey) -> (found: Option<usize>)
        requires
            self.wf(),
        ensures
            match found {
                Some(i) => i < self.keys@.len() && self.keys@[i as int]@ == key@,
                None => forall|i: int| 0 <= i < self.keys@.len() ==> self.keys@[i]@ != key@,
            },
    {
        let mut i: usize = 0;
        while i < self.keys.len()
            invariant
                0 <= i <= self.keys@.len(),
                forall|j: int| 0 <= j < i ==> self.keys@[j]@ != key@,
            decreases self.keys@.len() - i,
        {
            if self.keys[i].matches(key) {
                return Some(i);
            }
            i += 1;
        }
        None
    }

    /// Keeps `result` under `key`, in the place of what was kept under that
    /// key before.
    pub fn store(&mut self, key: CacheKey, result: AnalysisResult)
        requires
            old(self).wf(),
            result.wf(),
        ensures
            final(self).wf(),
            final(self)@ == old(self)@.insert(key@, result@),
    {
        let ghost keys = keys_of(self.keys@);
        let ghost results = results_of(self.results@);
        match self.position(&key) {
            Some(i) => {
                self.results.set(i, result);
                proof {
                    let replaced = results.update(i as int, result@);
                    assert(results_of(self.results@) =~= replaced);
                    assert(keys[i as int] == key@);
                    lemma_map_of(keys, results);
                    lemma_map_of(keys, replaced);
                    assert(map_of(keys, replaced) =~= map_of(keys, results).insert(
                        key@,
                        result@,
                    )) by {
                        assert forall|k: KeyModel| #[trigger]
                            map_of(keys, replaced).contains_key(k) <==> map_of(
                                keys,
                                results,
                            ).insert(key@, result@).contains_key(k) by {
                            if keys.contains(k) {
                                let j = choose|j: int| 0 <= j < keys.len() && keys[j] == k;
                                assert(map_of(keys, replaced).contains_key(keys[j]));
                                assert(map_of(keys, results).contains_key(keys[j]));
                            }
                        }
                        assert forall|k: KeyModel| #[trigger]
                            map_of(keys, replaced).contains_key(k) implies map_of(
                            keys,
                            replaced,
                        )[k] == map_of(keys, results).insert(key@, result@)[k] by {
                            let j = choose|j: int| 0 <= j < keys.len() && keys[j] == k;
                            assert(map_of(keys, replaced)[keys[j]] == replaced[j]);
                            assert(map_of(keys, results)[keys[j]] == results[j]);
                        }
                    }
                }
            },
            None => {
                self.keys.push(key);
                self.results.push(result);
                proof {
                    assert(keys_of(self.keys@) =~= keys.push(key@));
                    assert(results_of(self.results@) =~= results.push(result@));
                    assert(keys.push(key@).drop_last() =~= keys);
                    assert(results.push(result@).drop_last() =~= results);
                }
            },
        }
    }

    /// The result kept under `key`, if there is one.
    pub fn get(&self, key: &CacheKey) -> (found: Option<&AnalysisResult>)
        requires
            self.wf(),
        ensures
            found is Some <==> self@.contains_key(key@),
            found matches Some(result) ==> result.wf() && result@ == self@[key@],
    {
        proof {
            lemma_map_of(keys_of(self.keys@), results_of(self.results@));
        }
        match self.position(key) {
            Some(i) => {
                assert(keys_of(self.keys@)[i as int] == key@);
                assert(results_of(self.results@)[i as int] == self.results@[i as int]@);
                Some(&self.results[i])
            },
            None => {
                proof {
                    if self@.contains_key(key@) {
                        assert(keys_of(self.keys@).contains(key@));
                        let j = choose|j: int|
                            0 <= j < self.keys@.len() && keys_of(self.keys@)[j] == key@;
                        assert(self.keys@[j]@ == key@);
                    }
                }
                None
            },
        }
    }

    /// A copy of the result kept for `branch` and `contributor`, if there
    /// is one.
    pub fn get_cached_result(&self, branch: &str, contributor: &str) -> (found: Option<
        AnalysisResult,
    >)
        requires
            self.wf(),
        ensures
            found is Some <==> self@.contains_key((branch@, contributor@)),
            found matches Some(result) ==> result.wf() && result@ == self@[(
                branch@,
                contributor@,
            )],
    {
        let key = CacheKey::new(branch, contributor);
        match self.get(&key) {
            Some(result) => Some(result.clone()),
            None => None,
        }
    }

    /// Drops every result.
    pub fn clear(&mut self)
        ensures
            final(self).wf(),
            final(self)@ == Map::<KeyModel, ResultModel>::empty(),
    {
        self.keys.clear();
        self.results.clear();
    }
}

/// A map of distinct keys has as many keys as were given.
pub proof fn lemma_map_len(keys: Seq<KeyModel>, results: Seq<ResultModel>)
    requires
        keys.len() == results.len(),
        keys.no_duplicates(),
    ensures
        map_of(keys, results).dom().finite(),
        map_of(keys, results).dom().len() == keys.len(),
    decreases keys.len(),
{
    broadcast use vstd::set::group_set_axioms;

    if keys.len() > 0 {
        let front = keys.drop_last();
        lemma_map_len(front, results.drop_last());
        lemma_map_of(front, results.drop_last());
        assert(!map_of(front, results.drop_last()).contains_key(keys.last())) by {
            if front.contains(keys.last()) {
                let i = choose|i: int| 0 <= i < front.len() && front[i] == keys.last();
                assert(keys[i] == keys[keys.len() - 1]);
            }
        }
        assert(map_of(keys, results).dom() =~= map_of(front, results.drop_last()).dom().insert(
            keys.last(),
        ));
    } else {
        assert(map_of(keys, results).dom() =~= Set::<KeyModel>::empty());
    }
}

impl Default for CacheManager {
    fn default() -> (cache: CacheManager)
        ensures
            cache.wf(),
            cache@ == Map::<KeyModel, ResultModel>::empty(),
    {
        CacheManager::new()
    }
}

/// What is stored under a key is what a lookup of that key finds, and a
/// key under which nothing was stored is not found.
pub proof fn lemma_store_then_get(
    cache: Map<KeyModel, ResultModel>,
    key: KeyModel,
    result: ResultModel,
    other: KeyModel,
)
    ensures
        cache.insert(key, result).contains_key(key),
        cache.insert(key, result)[key] == result,
        other != key && !cache.contains_key(other) ==> !cache.insert(key, result).contains_key(
            other,
        ),
        !Map::<KeyModel, ResultModel>::empty().contains_key(other),
{
}

} // verus!
