//! The collaborative-document store: create documents in atomic batches,
//! read them back per item.
//!
//! A batch create either persists every item or none: conflicts are judged
//! against the state before the call, and nothing is written until no item
//! conflicts. Items of one batch are applied in list order, so of two items
//! with the same identity the later one wins. A batch read degrades per
//! item: a missing document yields a `NotFound` outcome for its own key and
//! leaves the other lookups untouched.

use vstd::prelude::*;
use vstd::slice::slice_to_vec;
use crate::entity::{CollabParams, CollabParamsModel, CollabType, FailedReason, QueryCollab,
    QueryCollabModel, QueryCollabResult, QueryOutcomeModel, StoreError};
use crate::kvlist::{assoc_map, assoc_unique, lemma_assoc_map_props, lemma_assoc_push,
    lemma_assoc_update};
use crate::aggregator::{aggregate, aggregate_model, outcome_models, BatchQueryResult};

verus! {

/// Identity of a stored document: workspace, object and document kind.
#[verifier::ext_equal]
pub ghost struct CollabKey {
    pub workspace_id: Seq<char>,
    pub object_id: Seq<char>,
    pub collab_type: CollabType,
}

/// The identity made of the given parts.
pub open spec fn make_key(ws: Seq<char>, oid: Seq<char>, t: CollabType) -> CollabKey {
    CollabKey { workspace_id: ws, object_id: oid, collab_type: t }
}

/// Identity a create item addresses within a workspace.
pub open spec fn item_key(ws: Seq<char>, p: CollabParamsModel) -> CollabKey {
    make_key(ws, p.object_id, p.collab_type)
}

/// Identity a query item addresses within a workspace.
pub open spec fn query_key(ws: Seq<char>, q: QueryCollabModel) -> CollabKey {
    make_key(ws, q.object_id, q.collab_type)
}

/// Models of a list of create items.
pub open spec fn item_models(s: Seq<CollabParams>) -> Seq<CollabParamsModel> {
    s.map_values(|p: CollabParams| p@)
}

/// Models of a list of query items.
pub open spec fn query_models(s: Seq<QueryCollab>) -> Seq<QueryCollabModel> {
    s.map_values(|q: QueryCollab| q@)
}

/// Whether a create item collides with an existing document it has no
/// permission to replace.
pub open spec fn conflicts(m: Map<CollabKey, Seq<u8>>, ws: Seq<char>, p: CollabParamsModel) -> bool {
    m.contains_key(item_key(ws, p)) && !p.override_if_exist
}

/// Object id of the first item of the batch that conflicts with the store
/// state `m`, if any.
pub open spec fn first_conflict_oid(
    m: Map<CollabKey, Seq<u8>>,
    ws: Seq<char>,
    items: Seq<CollabParamsModel>,
) -> Option<Seq<char>>
    decreases items.len(),
{
    if items.len() == 0 {
        None
    } else if conflicts(m, ws, items[0]) {
        Some(items[0].object_id)
    } else {
        first_conflict_oid(m, ws, items.drop_first())
    }
}

/// The store state after a batch of create items is applied in list order:
/// each item binds its identity to its payload, a later binding overriding
/// an earlier one.
pub open spec fn apply_items(
    m: Map<CollabKey, Seq<u8>>,
    ws: Seq<char>,
    items: Seq<CollabParamsModel>,
) -> Map<CollabKey, Seq<u8>>
    decreases items.len(),
{
    if items.len() == 0 {
        m
    } else {
        apply_items(m, ws, items.drop_last()).insert(
            item_key(ws, items.last()),
            items.last().encoded_collab_v1,
        )
    }
}

/// The identities a batch of create items addresses.
pub open spec fn batch_keys(ws: Seq<char>, items: Seq<CollabParamsModel>) -> Set<CollabKey> {
    Set::new(
        |k: CollabKey|
            exists|i: int| 0 <= i < items.len() && item_key(ws, #[trigger] items[i]) == k,
    )
}

/// Outcome of one query against store state `m`: the stored bytes verbatim,
/// or `NotFound`.
pub open spec fn outcome_of(
    m: Map<CollabKey, Seq<u8>>,
    ws: Seq<char>,
    q: QueryCollabModel,
) -> QueryOutcomeModel {
    if m.contains_key(query_key(ws, q)) {
        QueryOutcomeModel::Success { bytes: m[query_key(ws, q)] }
    } else {
        QueryOutcomeModel::Failed { reason: FailedReason::NotFound }
    }
}

/// The mapping a batch read returns against store state `m`: each query's
/// outcome, keyed by object id.
pub open spec fn batch_get_model(
    m: Map<CollabKey, Seq<u8>>,
    ws: Seq<char>,
    qs: Seq<QueryCollabModel>,
) -> Map<Seq<char>, QueryOutcomeModel> {
    aggregate_model(qs, qs.map_values(|q: QueryCollabModel| outcome_of(m, ws, q)))
}

/// One stored document.
struct StoredCollab {
    workspace_id: String,
    object_id: String,
    collab_type: CollabType,
    encoded_collab_v1: Vec<u8>,
}

/// Identity of a stored document.
spec fn entry_key(e: StoredCollab) -> CollabKey {
    make_key(e.workspace_id@, e.object_id@, e.collab_type)
}

/// Identity-to-payload pairs of the stored documents, in storage order.
spec fn entry_pairs(s: Seq<StoredCollab>) -> Seq<(CollabKey, Seq<u8>)> {
    s.map_values(|e: StoredCollab| (entry_key(e), e.encoded_collab_v1@))
}

/// The document store. Its abstract state is a finite map from document
/// identity to the encoded payload, exactly as submitted at create time.
pub struct CollabStore {
    entries: Vec<StoredCollab>,
}

impl View for CollabStore {
    type V = Map<CollabKey, Seq<u8>>;

    closed spec fn view(&self) -> Map<CollabKey, Seq<u8>> {
        assoc_map(entry_pairs(self.entries@))
    }
}

impl CollabStore {
    /// Internal invariant: each identity is stored at most once.
    pub closed spec fn wf(&self) -> bool {
        assoc_unique(entry_pairs(self.entries@))
    }

    /// A fresh, empty store.
    pub fn new() -> (r: CollabStore)
        ensures
            r.wf(),
            r@ == Map::<CollabKey, Seq<u8>>::empty(),
    {
        CollabStore { entries: Vec::new() }
    }

    /// Position of the document with the given identity, if stored.
    #[verifier::loop_isolation(false)]
    fn find_entry(&self, workspace_id: &String, object_id: &String, collab_type: CollabType) -> (r:
        Option<usize>)
        requires
            self.wf(),
        ensures
            ({
                let k = make_key(workspace_id@, object_id@, collab_type);
                match r {
                    Some(i) => i < self.entries@.len() && entry_key(self.entries@[i as int]) == k
                        && self@.contains_key(k) && self@[k]
                        == self.entries@[i as int].encoded_collab_v1@,
                    None => !self@.contains_key(k) && forall|j: int|
                        0 <= j < self.entries@.len() ==> entry_key(#[trigger] self.entries@[j])
                            != k,
                }
            }),
    {
        let ghost k = make_key(workspace_id@, object_id@, collab_type);
        proof {
            lemma_assoc_map_props(entry_pairs(self.entries@));
        }
        let n = self.entries.len();
        let mut i: usize = 0;
        while i < n
            invariant
                n == self.entries@.len(),
                0 <= i <= n,
                forall|j: int| 0 <= j < i ==> entry_key(#[trigger] self.entries@[j]) != k,
            decreases n - i,
        {
            let e = &self.entries[i];
            if e.workspace_id == *workspace_id && e.object_id == *object_id && e.collab_type
                == collab_type {
                proof {
                    assert(entry_pairs(self.entries@)[i as int].0 == k);
                }
                return Some(i);
            }
            proof {
                if entry_key(self.entries@[i as int]) == k {
                    assert(self.entries@[i as int].workspace_id@ == workspace_id@);
                    assert(self.entries@[i as int].object_id@ == object_id@);
                    assert(false);
                }
            }
            i += 1;
        }
        proof {
            if self@.contains_key(k) {
                let j = choose|j: int|
                    0 <= j < entry_pairs(self.entries@).len() && (#[trigger] entry_pairs(
                        self.entries@,
                    )[j]).0 == k;
                assert(entry_key(self.entries@[j]) == k);
            }
        }
        None
    }

    /// Bind one identity to one payload: replace the stored document of the
    /// same identity, or append a fresh one.
    fn put_entry(&mut self, workspace_id: &String, p: &CollabParams)
        requires
            old(self).wf(),
        ensures
            final(self).wf(),
            final(self)@ == old(self)@.insert(item_key(workspace_id@, p@), p@.encoded_collab_v1),
    {
        let ghost k = item_key(workspace_id@, p@);
        let ghost s0 = self.entries@;
        let bytes = slice_to_vec(p.encoded_collab_v1.as_slice());
        match self.find_entry(workspace_id, &p.object_id, p.collab_type) {
            Some(i) => {
                self.entries[i].encoded_collab_v1 = bytes;
                proof {
                    assert(entry_pairs(self.entries@) =~= entry_pairs(s0).update(
                        i as int,
                        (entry_pairs(s0)[i as int].0, p@.encoded_collab_v1),
                    ));
                    lemma_assoc_update(entry_pairs(s0), i as int, p@.encoded_collab_v1);
                    assert(entry_pairs(s0)[i as int].0 == k);
                }
            },
            None => {
                let entry = StoredCollab {
                    workspace_id: workspace_id.clone(),
                    object_id: p.object_id.clone(),
                    collab_type: p.collab_type,
                    encoded_collab_v1: bytes,
                };
                self.entries.push(entry);
                proof {
                    assert(entry_pairs(self.entries@) =~= entry_pairs(s0).push(
                        (k, p@.encoded_collab_v1),
                    ));
                    assert forall|j: int| 0 <= j < entry_pairs(s0).len() implies (
                    #[trigger] entry_pairs(s0)[j]).0 != k by {
                        assert(entry_key(s0[j]) != k);
                    }
                    lemma_assoc_push(entry_pairs(s0), (k, p@.encoded_collab_v1));
                }
            },
        }
    }

    /// Create the given documents in one atomic batch.
    ///
    /// An empty batch is rejected as `InvalidRequest`. If any item addresses
    /// an existing identity without `override_if_exist`, the whole batch
    /// fails with `Conflict` naming the first such item's object id, and the
    /// store is left exactly as it was. Otherwise every item is applied in
    /// list order (of two items with one identity, the later wins) and the
    /// call succeeds.
    #[verifier::loop_isolation(false)]
    pub fn batch_create(&mut self, workspace_id: &String, params_list: &Vec<CollabParams>) -> (r:
        Result<(), StoreError>)
        requires
            old(self).wf(),
        ensures
            final(self).wf(),
            match r {
                Ok(()) => params_list@.len() > 0 && first_conflict_oid(
                    old(self)@,
                    workspace_id@,
                    item_models(params_list@),
                ) is None && final(self)@ == apply_items(
                    old(self)@,
                    workspace_id@,
                    item_models(params_list@),
                ),
                Err(StoreError::InvalidRequest) => params_list@.len() == 0 && final(self)@ == old(
                    self,
                )@,
                Err(StoreError::Conflict(oid)) => params_list@.len() > 0 && first_conflict_oid(
                    old(self)@,
                    workspace_id@,
                    item_models(params_list@),
                ) == Some(oid@) && final(self)@ == old(self)@,
            },
    {
        let ghost m0 = self@;
        let ghost ws = workspace_id@;
        let ghost models = item_models(params_list@);
        let n = params_list.len();
        if n == 0 {
            return Err(StoreError::InvalidRequest);
        }
        let mut i: usize = 0;
        while i < n
            invariant
                self == old(self),
                self.wf(),
                m0 == self@,
                ws == workspace_id@,
                models == item_models(params_list@),
                n == params_list@.len(),
                0 <= i <= n,
                forall|j: int| 0 <= j < i ==> !conflicts(m0, ws, #[trigger] models[j]),
            decreases n - i,
        {
            let p = &params_list[i];
            let found = self.find_entry(workspace_id, &p.object_id, p.collab_type);
            if found.is_some() && !p.override_if_exist {
                proof {
                    assert(conflicts(m0, ws, models[i as int]));
                    lemma_first_conflict_some(m0, ws, models, i as int);
                }
                return Err(StoreError::Conflict(p.object_id.clone()));
            }
            proof {
                if conflicts(m0, ws, models[i as int]) {
                    assert(m0.contains_key(item_key(ws, models[i as int])));
                    assert(found is Some);
                }
            }
            i += 1;
        }
        proof {
            lemma_first_conflict_none(m0, ws, models);
        }
        let mut i: usize = 0;
        while i < n
            invariant
                ws == workspace_id@,
                models == item_models(params_list@),
                n == params_list@.len(),
                0 <= i <= n,
                self.wf(),
                self@ == apply_items(m0, ws, models.take(i as int)),
            decreases n - i,
        {
            proof {
                lemma_apply_take_step(m0, ws, models, i as int);
            }
            self.put_entry(workspace_id, &params_list[i]);
            i += 1;
        }
        proof {
            assert(models.take(n as int) =~= models);
        }
        Ok(())
    }

    /// Read a batch of documents: each query is resolved independently
    /// against the current state, and the outcomes are assembled into one
    /// mapping keyed by object id. A missing document fails only its own
    /// entry.
    #[verifier::loop_isolation(false)]
    pub fn batch_get(&self, workspace_id: &String, queries: &Vec<QueryCollab>) -> (r:
        BatchQueryResult)
        requires
            self.wf(),
        ensures
            r.wf(),
            r@ == batch_get_model(self@, workspace_id@, query_models(queries@)),
    {
        let ghost qs = query_models(queries@);
        let mut outcomes: Vec<QueryCollabResult> = Vec::new();
        let n = queries.len();
        let mut i: usize = 0;
        while i < n
            invariant
                0 <= i <= n,
                outcomes@.len() == i,
                forall|j: int|
                    0 <= j < i ==> (#[trigger] outcomes@[j])@ == outcome_of(
                        self@,
                        workspace_id@,
                        qs[j],
                    ),
            decreases n - i,
        {
            outcomes.push(self.get_collab(workspace_id, &queries[i]));
            i += 1;
        }
        proof {
            assert(outcome_models(outcomes@) =~= qs.map_values(
                |q: QueryCollabModel| outcome_of(self@, workspace_id@, q),
            ));
        }
        aggregate(queries, outcomes)
    }

    /// Look one document up; its stored bytes verbatim, or `NotFound`.
    pub fn get_collab(&self, workspace_id: &String, query: &QueryCollab) -> (r: QueryCollabResult)
        requires
            self.wf(),
        ensures
            r@ == outcome_of(self@, workspace_id@, query@),
    {
        match self.find_entry(workspace_id, &query.object_id, query.collab_type) {
            Some(i) => {
                let bytes = slice_to_vec(self.entries[i].encoded_collab_v1.as_slice());
                QueryCollabResult::Success { encode_collab_v1: bytes }
            },
            None => QueryCollabResult::Failed { reason: FailedReason::NotFound },
        }
    }
}

/// If no item of the batch conflicts, no first conflict exists.
proof fn lemma_first_conflict_none(
    m: Map<CollabKey, Seq<u8>>,
    ws: Seq<char>,
    items: Seq<CollabParamsModel>,
)
    requires
        forall|i: int| 0 <= i < items.len() ==> !conflicts(m, ws, #[trigger] items[i]),
    ensures
        first_conflict_oid(m, ws, items) is None,
    decreases items.len(),
{
    if items.len() > 0 {
        let t = items.drop_first();
        assert forall|i: int| 0 <= i < t.len() implies !conflicts(m, ws, #[trigger] t[i]) by {
            assert(t[i] == items[i + 1]);
        }
        lemma_first_conflict_none(m, ws, t);
    }
}

/// The first conflicting item determines the reported object id.
proof fn lemma_first_conflict_some(
    m: Map<CollabKey, Seq<u8>>,
    ws: Seq<char>,
    items: Seq<CollabParamsModel>,
    i: int,
)
    requires
        0 <= i < items.len(),
        conflicts(m, ws, items[i]),
        forall|j: int| 0 <= j < i ==> !conflicts(m, ws, #[trigger] items[j]),
    ensures
        first_conflict_oid(m, ws, items) == Some(items[i].object_id),
    decreases i,
{
    if i > 0 {
        let t = items.drop_first();
        assert(t[i - 1] == items[i]);
        assert forall|j: int| 0 <= j < i - 1 implies !conflicts(m, ws, #[trigger] t[j]) by {
            assert(t[j] == items[j + 1]);
        }
        lemma_first_conflict_some(m, ws, t, i - 1);
    }
}

/// Batch-create atomicity, visible half: applying a batch of items with
/// pairwise-distinct identities binds every item's identity to that item's
/// own payload; every other identity keeps its prior binding. Together with
/// `batch_create`'s contract — which leaves the store untouched on any
/// failure — a batch is visible in full or not at all.
pub proof fn lemma_batch_create_atomic(
    m: Map<CollabKey, Seq<u8>>,
    ws: Seq<char>,
    items: Seq<CollabParamsModel>,
)
    requires
        forall|i: int, j: int|
            0 <= i < j < items.len() ==> item_key(ws, #[trigger] items[i]) != item_key(
                ws,
                #[trigger] items[j],
            ),
    ensures
        forall|i: int|
            0 <= i < items.len() ==> apply_items(m, ws, items).contains_key(
                item_key(ws, #[trigger] items[i]),
            ) && apply_items(m, ws, items)[item_key(ws, items[i])]
                == items[i].encoded_collab_v1,
        forall|k: CollabKey|
            !(#[trigger] batch_keys(ws, items).contains(k)) ==> (apply_items(
                m,
                ws,
                items,
            ).contains_key(k) == m.contains_key(k) && (m.contains_key(k) ==> apply_items(
                m,
                ws,
                items,
            )[k] == m[k])),
    decreases items.len(),
{
    if items.len() > 0 {
        let t = items.drop_last();
        let last = items.last();
        assert forall|i: int, j: int|
            0 <= i < j < t.len() implies item_key(ws, #[trigger] t[i]) != item_key(
            ws,
            #[trigger] t[j],
        ) by {
            assert(t[i] == items[i] && t[j] == items[j]);
        }
        lemma_batch_create_atomic(m, ws, t);
        assert forall|i: int|
            0 <= i < items.len() implies apply_items(m, ws, items).contains_key(
            item_key(ws, #[trigger] items[i]),
        ) && apply_items(m, ws, items)[item_key(ws, items[i])]
            == items[i].encoded_collab_v1 by {
            if i < items.len() - 1 {
                assert(t[i] == items[i]);
                assert(item_key(ws, items[i]) != item_key(ws, last));
            }
        }
        assert forall|k: CollabKey|
            !(#[trigger] batch_keys(ws, items).contains(k)) implies (apply_items(
            m,
            ws,
            items,
        ).contains_key(k) == m.contains_key(k) && (m.contains_key(k) ==> apply_items(
            m,
            ws,
            items,
        )[k] == m[k])) by {
            assert(!batch_keys(ws, t).contains(k)) by {
                if batch_keys(ws, t).contains(k) {
                    let i = choose|i: int|
                        0 <= i < t.len() && item_key(ws, #[trigger] t[i]) == k;
                    assert(items[i] == t[i]);
                    assert(item_key(ws, items[i]) == k);
                    assert(batch_keys(ws, items).contains(k));
                }
            }
            assert(item_key(ws, last) != k) by {
                if item_key(ws, last) == k {
                    assert(item_key(ws, items[items.len() - 1]) == k);
                    assert(batch_keys(ws, items).contains(k));
                }
            }
        }
    }
}

/// Byte-exact retrieval: after a batch of items with distinct identities is
/// applied, a query for any item's identity succeeds with that item's bytes,
/// bit for bit.
pub proof fn lemma_create_then_get(
    m: Map<CollabKey, Seq<u8>>,
    ws: Seq<char>,
    items: Seq<CollabParamsModel>,
    i: int,
)
    requires
        forall|a: int, b: int|
            0 <= a < b < items.len() ==> item_key(ws, #[trigger] items[a]) != item_key(
                ws,
                #[trigger] items[b],
            ),
        0 <= i < items.len(),
    ensures
        outcome_of(
            apply_items(m, ws, items),
            ws,
            QueryCollabModel { object_id: items[i].object_id, collab_type: items[i].collab_type },
        ) == (QueryOutcomeModel::Success { bytes: items[i].encoded_collab_v1 }),
{
    lemma_batch_create_atomic(m, ws, items);
    let q = QueryCollabModel { object_id: items[i].object_id, collab_type: items[i].collab_type };
    assert(query_key(ws, q) == item_key(ws, items[i]));
}

/// Override semantics: a create item whose identity is already bound fails
/// as the batch's first conflict when it lacks override permission — and
/// `batch_create`'s contract then leaves the stored bytes unchanged — while
/// with permission the binding becomes the new payload.
pub proof fn lemma_override_semantics(
    m: Map<CollabKey, Seq<u8>>,
    ws: Seq<char>,
    p: CollabParamsModel,
)
    requires
        m.contains_key(item_key(ws, p)),
    ensures
        !p.override_if_exist ==> first_conflict_oid(m, ws, seq![p]) == Some(p.object_id),
        p.override_if_exist ==> first_conflict_oid(m, ws, seq![p]) is None,
        p.override_if_exist ==> apply_items(m, ws, seq![p]) == m.insert(
            item_key(ws, p),
            p.encoded_collab_v1,
        ) && apply_items(m, ws, seq![p])[item_key(ws, p)] == p.encoded_collab_v1,
{
    let s = seq![p];
    assert(s[0] == p);
    assert(s.drop_first() =~= Seq::<CollabParamsModel>::empty());
    assert(s.drop_last() =~= Seq::<CollabParamsModel>::empty());
    assert(first_conflict_oid(m, ws, Seq::<CollabParamsModel>::empty()) is None);
    assert(apply_items(m, ws, Seq::<CollabParamsModel>::empty()) == m);
}

/// Partial-failure read: querying one present and one absent document yields
/// a mapping of exactly two entries, the present one successful with its
/// stored bytes, the absent one failed with `NotFound`.
pub proof fn lemma_partial_failure_read(
    m: Map<CollabKey, Seq<u8>>,
    ws: Seq<char>,
    qa: QueryCollabModel,
    qb: QueryCollabModel,
)
    requires
        m.contains_key(query_key(ws, qa)),
        !m.contains_key(query_key(ws, qb)),
        qa.object_id != qb.object_id,
    ensures
        batch_get_model(m, ws, seq![qa, qb]).dom() == set![qa.object_id, qb.object_id],
        batch_get_model(m, ws, seq![qa, qb]).dom().len() == 2,
        batch_get_model(m, ws, seq![qa, qb])[qa.object_id] == (QueryOutcomeModel::Success {
            bytes: m[query_key(ws, qa)],
        }),
        batch_get_model(m, ws, seq![qa, qb])[qb.object_id] == (QueryOutcomeModel::Failed {
            reason: FailedReason::NotFound,
        }),
{
    let qs = seq![qa, qb];
    let os = qs.map_values(|q: QueryCollabModel| outcome_of(m, ws, q));
    assert(os.len() == 2);
    assert(qs.drop_last() =~= seq![qa]);
    assert(os.drop_last() =~= seq![outcome_of(m, ws, qa)]);
    assert(seq![qa].drop_last() =~= Seq::<QueryCollabModel>::empty());
    assert(seq![outcome_of(m, ws, qa)].drop_last() =~= Seq::<QueryOutcomeModel>::empty());
    assert(qs.last() == qb);
    assert(os.last() == outcome_of(m, ws, qb));
    assert(aggregate_model(
        Seq::<QueryCollabModel>::empty(),
        Seq::<QueryOutcomeModel>::empty(),
    ) == Map::<Seq<char>, QueryOutcomeModel>::empty());
    assert(aggregate_model(seq![qa], seq![outcome_of(m, ws, qa)]) == Map::<
        Seq<char>,
        QueryOutcomeModel,
    >::empty().insert(qa.object_id, outcome_of(m, ws, qa)));
    assert(batch_get_model(m, ws, qs) == Map::<Seq<char>, QueryOutcomeModel>::empty().insert(
        qa.object_id,
        outcome_of(m, ws, qa),
    ).insert(qb.object_id, outcome_of(m, ws, qb)));
    assert(batch_get_model(m, ws, qs).dom() =~= set![qa.object_id, qb.object_id]);
}

/// Applying one more item of the batch binds that item's identity.
proof fn lemma_apply_take_step(
    m: Map<CollabKey, Seq<u8>>,
    ws: Seq<char>,
    items: Seq<CollabParamsModel>,
    i: int,
)
    requires
        0 <= i < items.len(),
    ensures
        apply_items(m, ws, items.take(i + 1)) == apply_items(m, ws, items.take(i)).insert(
            item_key(ws, items[i]),
            items[i].encoded_collab_v1,
        ),
{
    assert(items.take(i + 1).drop_last() =~= items.take(i));
    assert(items.take(i + 1).last() == items[i]);
}

} // verus!
