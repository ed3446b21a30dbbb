//! Assembly of per-item outcomes of a batch read into one response mapping.
//!
//! The mapping is keyed by object id, so duplicate queries collapse to one
//! entry; of two queries with the same object id, the later one's outcome
//! stands, matching the list-order policy of batch creates.

use vstd::prelude::*;
use crate::entity::{QueryCollab, QueryCollabModel, QueryCollabResult, QueryOutcomeModel};
use crate::kvlist::{assoc_map, assoc_unique, lemma_assoc_map_len, lemma_assoc_map_props,
    lemma_assoc_push, lemma_assoc_update};
use crate::store::query_models;

verus! {

/// Models of a list of per-item outcomes.
pub open spec fn outcome_models(s: Seq<QueryCollabResult>) -> Seq<QueryOutcomeModel> {
    s.map_values(|r: QueryCollabResult| r@)
}

/// The response mapping assembled from queries and their outcomes, pairwise:
/// each query binds its object id to its outcome, a later binding overriding
/// an earlier one.
pub open spec fn aggregate_model(
    qs: Seq<QueryCollabModel>,
    os: Seq<QueryOutcomeModel>,
) -> Map<Seq<char>, QueryOutcomeModel>
    recommends
        qs.len() == os.len(),
    decreases qs.len(),
{
    if qs.len() == 0 {
        Map::empty()
    } else {
        aggregate_model(qs.drop_last(), os.drop_last()).insert(qs.last().object_id, os.last())
    }
}

/// Pairs of the result list viewed abstractly.
spec fn result_pairs(s: Seq<(String, QueryCollabResult)>) -> Seq<(Seq<char>, QueryOutcomeModel)> {
    s.map_values(|p: (String, QueryCollabResult)| (p.0@, p.1@))
}

/// Result of a batch read: one outcome per distinct requested object id.
pub struct BatchQueryResult {
    results: Vec<(String, QueryCollabResult)>,
}

impl View for BatchQueryResult {
    type V = Map<Seq<char>, QueryOutcomeModel>;

    closed spec fn view(&self) -> Map<Seq<char>, QueryOutcomeModel> {
        assoc_map(result_pairs(self.results@))
    }
}

impl BatchQueryResult {
    /// Internal invariant: each object id occurs at most once.
    pub closed spec fn wf(&self) -> bool {
        assoc_unique(result_pairs(self.results@))
    }

    /// An empty result mapping.
    pub fn new() -> (r: BatchQueryResult)
        ensures
            r.wf(),
            r@ == Map::<Seq<char>, QueryOutcomeModel>::empty(),
    {
        BatchQueryResult { results: Vec::new() }
    }

    /// Position of the entry for the given object id, if present.
    #[verifier::loop_isolation(false)]
    fn find(&self, object_id: &String) -> (r: Option<usize>)
        requires
            self.wf(),
        ensures
            match r {
                Some(i) => i < self.results@.len() && self.results@[i as int].0@ == object_id@
                    && self@.contains_key(object_id@) && self@[object_id@]
                    == self.results@[i as int].1@,
                None => !self@.contains_key(object_id@) && forall|j: int|
                    0 <= j < self.results@.len() ==> (#[trigger] self.results@[j]).0@
                        != object_id@,
            },
    {
        proof {
            lemma_assoc_map_props(result_pairs(self.results@));
        }
        let n = self.results.len();
        let mut i: usize = 0;
        while i < n
            invariant
                0 <= i <= n,
                forall|j: int| 0 <= j < i ==> (#[trigger] self.results@[j]).0@ != object_id@,
            decreases n - i,
        {
            if self.results[i].0 == *object_id {
                proof {
                    assert(result_pairs(self.results@)[i as int].0 == object_id@);
                }
                return Some(i);
            }
            i += 1;
        }
        proof {
            if self@.contains_key(object_id@) {
                let j = choose|j: int|
                    0 <= j < result_pairs(self.results@).len() && (#[trigger] result_pairs(
                        self.results@,
                    )[j]).0 == object_id@;
                assert((self.results@[j]).0@ == object_id@);
            }
        }
        None
    }

    /// Bind one object id to one outcome, overriding an earlier binding.
    fn put(&mut self, object_id: String, outcome: QueryCollabResult)
        requires
            old(self).wf(),
        ensures
            final(self).wf(),
            final(self)@ == old(self)@.insert(object_id@, outcome@),
    {
        let ghost s0 = self.results@;
        match self.find(&object_id) {
            Some(i) => {
                self.results[i].1 = outcome;
                proof {
                    assert(result_pairs(self.results@) =~= result_pairs(s0).update(
                        i as int,
                        (result_pairs(s0)[i as int].0, self.results@[i as int].1@),
                    ));
                    lemma_assoc_update(result_pairs(s0), i as int, self.results@[i as int].1@);
                }
            },
            None => {
                let ghost oid = object_id@;
                let ghost om = outcome@;
                self.results.push((object_id, outcome));
                proof {
                    assert(result_pairs(self.results@) =~= result_pairs(s0).push((oid, om)));
                    assert forall|j: int| 0 <= j < result_pairs(s0).len() implies (
                    #[trigger] result_pairs(s0)[j]).0 != oid by {
                        assert(s0[j].0@ != oid);
                    }
                    lemma_assoc_push(result_pairs(s0), (oid, om));
                }
            },
        }
    }

    /// The outcome recorded for an object id, if that id was queried.
    pub fn get(&self, object_id: &String) -> (r: Option<&QueryCollabResult>)
        requires
            self.wf(),
        ensures
            match r {
                Some(outcome) => self@.contains_key(object_id@) && outcome@ == self@[object_id@],
                None => !self@.contains_key(object_id@),
            },
    {
        match self.find(object_id) {
            Some(i) => Some(&self.results[i].1),
            None => None,
        }
    }

    /// How many distinct object ids the mapping holds.
    pub fn len(&self) -> (r: usize)
        requires
            self.wf(),
        ensures
            r == self@.dom().len(),
    {
        proof {
            lemma_assoc_map_len(result_pairs(self.results@));
        }
        self.results.len()
    }
}

/// Assemble the response mapping from queries and their outcomes, pairwise
/// in list order.
#[verifier::loop_isolation(false)]
pub fn aggregate(queries: &Vec<QueryCollab>, outcomes: Vec<QueryCollabResult>) -> (r:
    BatchQueryResult)
    requires
        queries@.len() == outcomes@.len(),
    ensures
        r.wf(),
        r@ == aggregate_model(query_models(queries@), outcome_models(outcomes@)),
{
    let ghost qs = query_models(queries@);
    let ghost os = outcome_models(outcomes@);
    let mut rest = outcomes;
    let mut r = BatchQueryResult::new();
    let n = queries.len();
    let mut i: usize = 0;
    while i < n
        invariant
            0 <= i <= n,
            rest@.len() == n - i,
            forall|j: int| 0 <= j < rest@.len() ==> rest@[j] == outcomes@[j + i],
            r.wf(),
            r@ == aggregate_model(qs.take(i as int), os.take(i as int)),
        decreases n - i,
    {
        proof {
            lemma_aggregate_take_step(qs, os, i as int);
        }
        let outcome = rest.remove(0);
        assert(outcome@ == os[i as int]);
        r.put(queries[i].object_id.clone(), outcome);
        i += 1;
    }
    proof {
        assert(qs.take(n as int) =~= qs);
        assert(os.take(n as int) =~= os);
    }
    r
}

/// Aggregating one more query binds that query's object id to its outcome.
proof fn lemma_aggregate_take_step(qs: Seq<QueryCollabModel>, os: Seq<QueryOutcomeModel>, i: int)
    requires
        qs.len() == os.len(),
        0 <= i < qs.len(),
    ensures
        aggregate_model(qs.take(i + 1), os.take(i + 1)) == aggregate_model(
            qs.take(i),
            os.take(i),
        ).insert(qs[i].object_id, os[i]),
{
    assert(qs.take(i + 1).drop_last() =~= qs.take(i));
    assert(os.take(i + 1).drop_last() =~= os.take(i));
    assert(qs.take(i + 1).last() == qs[i]);
    assert(os.take(i + 1).last() == os[i]);
}

} // verus!
