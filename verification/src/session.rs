use vstd::prelude::*;
use vstd::string::*;
use rand::distr::Distribution;
use crate::StudyItem;
use crate::parse::str_eq;
use crate::sets::StudySetLoader;
use crate::sets::hiragana::{hiragana_items, HiraganaStudySet};
use crate::sets::katakana::{katakana_items, KatakanaStudySet};

verus! {

#[verifier::external_type_specification]
#[verifier::external_body]
pub struct ExWeightedError(rand::distr::weighted::Error);

#[verifier::external_type_specification]
#[verifier::external_body]
pub struct ExThreadRng(rand::rngs::ThreadRng);

/// The cached weighted distribution. It holds rand's `WeightedIndex`, which
/// Verus refuses to declare because of the bounds on its type parameter, so
/// the whole struct is opaque and is spoken of through `dist_weights`.
#[verifier::external_body]
pub struct WeightDist {
    dist: rand::distr::weighted::WeightedIndex<u32>,
}

/// The weights a distribution was built from.
pub uninterp spec fn dist_weights(d: WeightDist) -> Seq<u32>;

/// The sum of a table of weights.
pub open spec fn sum_weights(s: Seq<u32>) -> int
    decreases s.len(),
{
    if s.len() == 0 {
        0
    } else {
        s[0] + sum_weights(s.drop_first())
    }
}

pub proof fn lemma_sum_push(s: Seq<u32>, x: u32)
    ensures
        sum_weights(s.push(x)) == sum_weights(s) + x,
    decreases s.len(),
{
    assert(s.push(x)[0] == if s.len() == 0 { x } else { s[0] });
    if s.len() == 0 {
        assert(s.push(x).drop_first() =~= Seq::<u32>::empty());
        assert(sum_weights(s.push(x)) == x + sum_weights(Seq::<u32>::empty()));
    } else {
        assert(s.push(x).drop_first() =~= s.drop_first().push(x));
        lemma_sum_push(s.drop_first(), x);
    }
}

pub proof fn lemma_sum_update(s: Seq<u32>, j: int, v: u32)
    requires
        0 <= j < s.len(),
    ensures
        sum_weights(s.update(j, v)) == sum_weights(s) - s[j] + v,
    decreases s.len(),
{
    if j == 0 {
        assert(s.update(0, v).drop_first() =~= s.drop_first());
    } else {
        assert(s.update(j, v).drop_first() =~= s.drop_first().update(j - 1, v));
        lemma_sum_update(s.drop_first(), j - 1, v);
    }
}

pub proof fn lemma_sum_lower(s: Seq<u32>)
    requires
        forall|i: int| 0 <= i < s.len() ==> s[i] >= 1,
    ensures
        sum_weights(s) >= s.len(),
    decreases s.len(),
{
    if s.len() > 0 {
        lemma_sum_lower(s.drop_first());
    }
}

/// Relies on rand's `WeightedIndex::new`: for `u32` weights it succeeds
/// exactly when the sequence is non-empty and the sum of the weights lies
/// between 1 and `u32::MAX`, and the distribution then draws over exactly
/// these weights.
#[verifier::external_body]
fn weighted_index_new(weights: &Vec<u32>) -> (r: Result<
    WeightDist,
    rand::distr::weighted::Error,
>)
    ensures
        match r {
            Ok(d) => dist_weights(d) == weights@ && weights@.len() > 0 && 1 <= sum_weights(
                weights@,
            ) <= u32::MAX,
            Err(_) => !(weights@.len() > 0 && 1 <= sum_weights(weights@) <= u32::MAX),
        },
{
    match rand::distr::weighted::WeightedIndex::new(weights) {
        Ok(d) => Ok(WeightDist { dist: d }),
        Err(e) => Err(e),
    }
}

/// Relies on rand's `Distribution::sample` for `WeightedIndex`: a draw
/// returns an index below the number of weights the distribution was built
/// from, and never one whose weight is zero.
#[verifier::external_body]
fn weighted_index_draw(
    d: &WeightDist,
    rng: &mut rand::rngs::ThreadRng,
) -> (r: usize)
    ensures
        r < dist_weights(*d).len(),
        dist_weights(*d)[r as int] >= 1,
{
    d.dist.sample(rng)
}

/// Relies on rand::rng, which hands out the generator seeded from the process
/// environment; it panics only if the operating system fails to seed it.
#[verifier::external_body]
fn new_rng() -> rand::rngs::ThreadRng {
    rand::rng()
}

/// The errors of a study session.
#[derive(Debug, Clone, Copy, PartialEq, Eq, Structural)]
pub enum SessionError {
    /// Rebuilding the weighted distribution failed: the weight sum does not
    /// fit the weight type.
    Distribution,
}

/// Whether a requested set identifier names a bundled set.
pub open spec fn set_known(name: Seq<char>) -> bool {
    name == "hiragana"@ || name == "katakana"@
}

/// The items a requested set identifier contributes.
pub open spec fn set_items(name: Seq<char>) -> Seq<(Seq<char>, Seq<char>)> {
    if name == "hiragana"@ {
        hiragana_items()
    } else if name == "katakana"@ {
        katakana_items()
    } else {
        Seq::empty()
    }
}

/// The items of a session built from the requested set identifiers, in
/// request order, unresolvable identifiers skipped.
pub open spec fn items_of_sets(names: Seq<Seq<char>>) -> Seq<(Seq<char>, Seq<char>)>
    decreases names.len(),
{
    if names.len() == 0 {
        Seq::empty()
    } else {
        set_items(names[0]) + items_of_sets(names.drop_first())
    }
}

/// The requested set identifiers that resolve, in request order.
pub open spec fn resolved_names(names: Seq<Seq<char>>) -> Seq<Seq<char>>
    decreases names.len(),
{
    if names.len() == 0 {
        Seq::empty()
    } else if set_known(names[0]) {
        seq![names[0]] + resolved_names(names.drop_first())
    } else {
        resolved_names(names.drop_first())
    }
}

/// Whether a requested set identifier names a bundled set.
pub fn set_exists(name: &str) -> (r: bool)
    ensures
        r == set_known(name@),
{
    str_eq(name, "hiragana") || str_eq(name, "katakana")
}

/// The weight, front and back of report entries, as views.
pub open spec fn entries_view(s: Seq<(u32, String, String)>) -> Seq<(u32, Seq<char>, Seq<char>)> {
    s.map_values(|t: (u32, String, String)| (t.0, t.1@, t.2@))
}

/// The current entries of a session, in store order: each item's weight,
/// front and back.
pub open spec fn session_entries(s: StudySession) -> Seq<(u32, Seq<char>, Seq<char>)> {
    Seq::new(s.items@.len(), |i: int| (s.weights@[i], s.items@[i].front@, s.items@[i].back@))
}

/// One study session: the ordered item store, the weight table aligned with
/// it, the cached weighted distribution, and the names of the resolved sets.
pub struct StudySession {
    pub sets: Vec<String>,
    pub items: Vec<StudyItem>,
    pub weights: Vec<u32>,
    pub dist: Option<WeightDist>,
    pub rng: rand::rngs::ThreadRng,
}

impl StudySession {
    /// The session invariant: the weight table is aligned with the item
    /// store, every weight is at least 1, and the cached distribution is
    /// present exactly when there are items and was built from the current
    /// weights.
    pub open spec fn wf(&self) -> bool {
        &&& self.weights@.len() == self.items@.len()
        &&& (forall|i: int| 0 <= i < self.weights@.len() ==> self.weights@[i] >= 1)
        &&& (self.weights@.len() > 0 <==> self.dist is Some)
        &&& (self.dist matches Some(d) ==> dist_weights(d) == self.weights@)
        &&& (self.weights@.len() > 0 ==> sum_weights(self.weights@) <= u32::MAX)
    }

    /// Builds a session from the requested set identifiers: the items of each
    /// resolvable identifier are appended in request order, every weight
    /// starts at 1, and the distribution is built when there are items.
    pub fn new(sets: Vec<String>) -> (r: Result<StudySession, SessionError>)
        ensures
            match r {
                Ok(s) => {
                    &&& s.wf()
                    &&& s.items.deep_view() == items_of_sets(sets.deep_view())
                    &&& s.sets.deep_view() == resolved_names(sets.deep_view())
                    &&& s.weights@.len() == s.items@.len()
                    &&& (forall|i: int| 0 <= i < s.weights@.len() ==> s.weights@[i] == 1)
                },
                Err(_) => items_of_sets(sets.deep_view()).len() > u32::MAX,
            },
    {
        let mut resolved: Vec<String> = Vec::new();
        let mut items: Vec<StudyItem> = Vec::new();
        let mut idx: usize = 0;
        proof {
            assert(sets.deep_view().skip(0) =~= sets.deep_view());
            assert(items.deep_view() =~= Seq::<(Seq<char>, Seq<char>)>::empty());
            assert(resolved.deep_view() =~= Seq::<Seq<char>>::empty());
        }
        while idx < sets.len()
            invariant
                idx <= sets@.len(),
                items.deep_view() + items_of_sets(sets.deep_view().skip(idx as int))
                    == items_of_sets(sets.deep_view()),
                resolved.deep_view() + resolved_names(sets.deep_view().skip(idx as int))
                    == resolved_names(sets.deep_view()),
            decreases sets@.len() - idx,
        {
            let ghost rest = sets.deep_view().skip(idx as int);
            proof {
                assert(rest[0] == sets@[idx as int]@);
                assert(rest.drop_first() =~= sets.deep_view().skip(idx as int + 1));
            }
            let ghost items_before = items.deep_view();
            let ghost resolved_before = resolved.deep_view();
            let name: &String = &sets[idx];
            if str_eq(name.as_str(), "hiragana") {
                let loader = HiraganaStudySet;
                resolved.push(loader.name());
                let mut v = loader.load();
                let ghost v_view = v.deep_view();
                items.append(&mut v);
                proof {
                    assert(items.deep_view() =~= items_before + v_view);
                    assert(resolved.deep_view() =~= resolved_before.push("hiragana"@));
                    assert(resolved_before.push("hiragana"@) =~= resolved_before + seq![rest[0]]);
                    assert((items_before + v_view) + items_of_sets(rest.drop_first())
                        =~= items_before + (v_view + items_of_sets(rest.drop_first())));
                    assert((resolved_before + seq![rest[0]]) + resolved_names(rest.drop_first())
                        =~= resolved_before + (seq![rest[0]] + resolved_names(rest.drop_first())));
                }
            } else if str_eq(name.as_str(), "katakana") {
                let loader = KatakanaStudySet;
                resolved.push(loader.name());
                let mut v = loader.load();
                let ghost v_view = v.deep_view();
                items.append(&mut v);
                proof {
                    assert(items.deep_view() =~= items_before + v_view);
                    assert(resolved.deep_view() =~= resolved_before.push("katakana"@));
                    assert(resolved_before.push("katakana"@) =~= resolved_before + seq![rest[0]]);
                    assert((items_before + v_view) + items_of_sets(rest.drop_first())
                        =~= items_before + (v_view + items_of_sets(rest.drop_first())));
                    assert((resolved_before + seq![rest[0]]) + resolved_names(rest.drop_first())
                        =~= resolved_before + (seq![rest[0]] + resolved_names(rest.drop_first())));
                }
            } else {
                proof {
                    assert(set_items(rest[0]) =~= Seq::<(Seq<char>, Seq<char>)>::empty());
                    assert(items_of_sets(rest) =~= items_of_sets(rest.drop_first()));
                }
            }
            idx += 1;
        }
        proof {
            assert(sets.deep_view().skip(sets@.len() as int) =~= Seq::<Seq<char>>::empty());
            assert(items.deep_view() + items_of_sets(Seq::<Seq<char>>::empty())
                =~= items.deep_view());
            assert(resolved.deep_view() + resolved_names(Seq::<Seq<char>>::empty())
                =~= resolved.deep_view());
        }
        let mut weights: Vec<u32> = Vec::new();
        let mut k: usize = 0;
        while k < items.len()
            invariant
                k <= items@.len(),
                weights@.len() == k,
                forall|i: int| 0 <= i < k ==> weights@[i] == 1,
                sum_weights(weights@) == k,
            decreases items@.len() - k,
        {
            proof {
                lemma_sum_push(weights@, 1u32);
            }
            weights.push(1u32);
            k += 1;
        }
        let dist = if weights.len() > 0 {
            match weighted_index_new(&weights) {
                Ok(d) => Some(d),
                Err(_) => {
                    return Err(SessionError::Distribution);
                },
            }
        } else {
            None
        };
        Ok(StudySession { sets: resolved, items, weights, dist, rng: new_rng() })
    }

    /// Rebuilds the cached distribution from the current weights; with an
    /// empty weight table there is nothing to rebuild.
    fn sync_dist(&mut self) -> (r: Result<(), SessionError>)
        ensures
            final(self).items == old(self).items,
            final(self).sets == old(self).sets,
            final(self).weights == old(self).weights,
            final(self).rng == old(self).rng,
            old(self).weights@.len() == 0 ==> final(self).dist == old(self).dist && r is Ok,
            old(self).weights@.len() > 0 ==> if 1 <= sum_weights(old(self).weights@) <= u32::MAX {
                r is Ok && (final(self).dist matches Some(d) && dist_weights(d) == old(self).weights@)
            } else {
                r is Err && final(self).dist == old(self).dist
            },
    {
        if self.weights.len() > 0 {
            match weighted_index_new(&self.weights) {
                Ok(d) => {
                    self.dist = Some(d);
                    Ok(())
                },
                Err(_) => Err(SessionError::Distribution),
            }
        } else {
            Ok(())
        }
    }

    /// Adds 1 to every weight, then rebuilds the distribution. The rebuild
    /// fails only when the new weight sum no longer fits the weight type; the
    /// weights are updated either way.
    pub fn increment(&mut self) -> (r: Result<(), SessionError>)
        requires
            old(self).wf(),
            forall|i: int| 0 <= i < old(self).weights@.len() ==> old(self).weights@[i]
                < u32::MAX,
        ensures
            final(self).items == old(self).items,
            final(self).sets == old(self).sets,
            final(self).weights@.len() == old(self).weights@.len(),
            forall|i: int| 0 <= i < old(self).weights@.len() ==> final(self).weights@[i] == old(self).weights@[i] + 1,
            r is Ok <==> (old(self).weights@.len() == 0 || sum_weights(final(self).weights@)
                <= u32::MAX),
            r is Ok ==> final(self).wf(),
            r is Err ==> final(self).dist == old(self).dist,
    {
        let n = self.weights.len();
        let mut i: usize = 0;
        while i < n
            invariant
                i <= n,
                n == self.weights@.len() == old(self).weights@.len(),
                self.items == old(self).items,
                self.sets == old(self).sets,
                self.dist == old(self).dist,
                self.rng == old(self).rng,
                forall|m: int| 0 <= m < i ==> self.weights@[m] == old(self).weights@[m] + 1,
                forall|m: int| i <= m < n ==> self.weights@[m] == old(self).weights@[m],
                forall|m: int| 0 <= m < n ==> old(self).weights@[m] < u32::MAX,
            decreases n - i,
        {
            let w = self.weights[i];
            self.weights[i] = w + 1;
            i += 1;
        }
        proof {
            if self.weights@.len() > 0 {
                lemma_sum_lower(self.weights@);
            }
        }
        self.sync_dist()
    }

    /// Sets the weight at `index` back to 1, then rebuilds the distribution.
    /// An out-of-bounds index is silently ignored. The rebuild always
    /// succeeds: resetting a weight never grows the sum.
    pub fn reset(&mut self, index: usize) -> (r: Result<(), SessionError>)
        requires
            old(self).wf(),
        ensures
            final(self).items == old(self).items,
            final(self).sets == old(self).sets,
            final(self).wf(),
            r is Ok,
            index < old(self).weights@.len() ==> final(self).weights@ == old(self).weights@.update(index as int, 1u32),
            index >= old(self).weights@.len() ==> *final(self) == *old(self),
    {
        if index < self.weights.len() {
            proof {
                lemma_sum_update(self.weights@, index as int, 1u32);
            }
            self.weights[index] = 1;
            proof {
                lemma_sum_lower(self.weights@);
            }
            self.sync_dist()
        } else {
            Ok(())
        }
    }

    /// Draws one index from the distribution, with probability proportional
    /// to its weight, and returns it with a copy of the item; returns nothing
    /// exactly when the session has no items. Drawing mutates no weight.
    pub fn sample(&mut self) -> (r: Option<(usize, StudyItem)>)
        requires
            old(self).wf(),
        ensures
            final(self).wf(),
            final(self).items == old(self).items,
            final(self).sets == old(self).sets,
            final(self).weights == old(self).weights,
            final(self).dist == old(self).dist,
            r is None <==> old(self).items@.len() == 0,
            r matches Some((i, item)) ==> i < old(self).items@.len() && item@ == old(self).items@[i as int]@,
    {
        match &self.dist {
            Some(d) => {
                let idx = weighted_index_draw(d, &mut self.rng);
                let item = self.items[idx].clone();
                Some((idx, item))
            },
            None => None,
        }
    }

    /// Applies one answer for the item at `index`: on a correct answer the
    /// item's weight is reset to 1 first, then every weight is incremented,
    /// so the answered item ends at weight 2; on an incorrect answer only the
    /// increment happens. Returns whether the answer matched the item's back.
    pub fn submit_answer(&mut self, index: usize, answer: &str) -> (r: Result<
        bool,
        SessionError,
    >)
        requires
            old(self).wf(),
            index < old(self).items@.len(),
            forall|i: int| 0 <= i < old(self).weights@.len() ==> old(self).weights@[i]
                < u32::MAX,
        ensures
            final(self).items == old(self).items,
            final(self).sets == old(self).sets,
            r matches Ok(correct) ==> correct == (answer@ == old(self).items@[index as int].back@),
            ({
                let correct = answer@ == old(self).items@[index as int].back@;
                let n = old(self).weights@.len();
                &&& final(self).weights@.len() == n
                &&& (correct ==> final(self).weights@[index as int] == 2)
                &&& (forall|i: int| 0 <= i < n && (i != index || !correct) ==> final(self).weights@[i] == old(self).weights@[i] + 1)
            }),
            r is Ok <==> sum_weights(final(self).weights@) <= u32::MAX,
            r is Ok ==> final(self).wf(),
    {
        let correct = str_eq(answer, self.items[index].back.as_str());
        if correct {
            let reset_result = self.reset(index);
        }
        match self.increment() {
            Ok(()) => Ok(correct),
            Err(e) => Err(e),
        }
    }

    /// All items with their current weights, a permutation of the store
    /// sorted by weight in non-increasing order; the order among entries of
    /// equal weight is unspecified.
    pub fn weights_report(&self) -> (r: Vec<(u32, String, String)>)
        requires
            self.wf(),
        ensures
            entries_view(r@).to_multiset() == session_entries(*self).to_multiset(),
            forall|i: int, j: int| 0 <= i <= j < r@.len() ==> r@[i].0 >= r@[j].0,
    {
        let mut pool: Vec<(u32, String, String)> = Vec::new();
        let mut k: usize = 0;
        proof {
            assert(entries_view(pool@) =~= session_entries(*self).take(0));
        }
        while k < self.items.len()
            invariant
                self.wf(),
                k <= self.items@.len(),
                entries_view(pool@) == session_entries(*self).take(k as int),
            decreases self.items@.len() - k,
        {
            let ghost pool_prev = pool@;
            let entry = (self.weights[k], self.items[k].front.clone(), self.items[k].back.clone());
            pool.push(entry);
            proof {
                let sv = session_entries(*self);
                assert(entries_view(pool_prev).len() == pool_prev.len());
                assert(pool_prev.len() == k);
                assert(pool@ == pool_prev.push(entry));
                assert(entries_view(pool@).len() == k + 1);
                assert forall|i: int| 0 <= i <= k as int implies entries_view(pool@)[i] == sv.take(
                    k as int + 1,
                )[i] by {
                    if i < k as int {
                        assert(entries_view(pool_prev)[i] == sv.take(k as int)[i]);
                        assert(pool@[i] == pool_prev[i]);
                    } else {
                        assert(pool@[i] == entry);
                        assert(entry.1@ == self.items@[i].front@);
                        assert(entry.2@ == self.items@[i].back@);
                    }
                }
                assert(entries_view(pool@) =~= sv.take(k as int + 1));
            }
            k += 1;
        }
        let ghost total = session_entries(*self).to_multiset();
        let mut out: Vec<(u32, String, String)> = Vec::new();
        proof {
            broadcast use vstd::seq_lib::group_to_multiset_ensures;
            broadcast use vstd::multiset::group_multiset_axioms;

            assert(session_entries(*self).take(self.items@.len() as int) =~= session_entries(
                *self,
            ));
            assert(entries_view(out@) =~= Seq::<(u32, Seq<char>, Seq<char>)>::empty());
            assert(entries_view(out@).to_multiset().add(entries_view(pool@).to_multiset())
                =~= total);
        }
        while pool.len() > 0
            invariant
                entries_view(out@).to_multiset().add(entries_view(pool@).to_multiset()) == total,
                forall|i: int, j: int| 0 <= i <= j < out@.len() ==> out@[i].0 >= out@[j].0,
                forall|i: int, j: int|
                    0 <= i < out@.len() && 0 <= j < pool@.len() ==> out@[i].0 >= pool@[j].0,
            decreases pool@.len(),
        {
            let mut mi: usize = 0;
            let mut m: usize = 1;
            while m < pool.len()
                invariant
                    mi < m <= pool@.len(),
                    pool@.len() > 0,
                    forall|j: int| 0 <= j < m ==> pool@[mi as int].0 >= pool@[j].0,
                decreases pool@.len() - m,
            {
                if pool[m].0 > pool[mi].0 {
                    mi = m;
                }
                m += 1;
            }
            let ghost pool_before = pool@;
            let ghost out_before = out@;
            let x = pool.remove(mi);
            let ghost xe = (x.0, x.1@, x.2@);
            out.push(x);
            proof {
                broadcast use vstd::seq_lib::group_to_multiset_ensures;
                broadcast use vstd::multiset::group_multiset_axioms;

                assert(forall|j: int|
                    0 <= j < pool@.len() ==> pool@[j] == if j < mi {
                        pool_before[j]
                    } else {
                        pool_before[j + 1]
                    });
                assert(entries_view(out@) =~= entries_view(out_before).push(xe));
                assert(entries_view(pool@) =~= entries_view(pool_before).remove(mi as int));
                assert(entries_view(pool_before)[mi as int] == xe);
                assert(entries_view(pool_before).contains(xe));
                assert(entries_view(out@).to_multiset() =~= entries_view(
                    out_before,
                ).to_multiset().insert(xe));
                assert(entries_view(pool@).to_multiset() =~= entries_view(
                    pool_before,
                ).to_multiset().remove(xe));
                assert(entries_view(out@).to_multiset().add(entries_view(pool@).to_multiset())
                    =~= total);
            }
        }
        out
    }
}

} // verus!
