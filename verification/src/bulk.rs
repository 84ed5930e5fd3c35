//! The bulk executor: an ordered list of index / create / update / delete
//! actions applied against the catalog, each item's failure captured in the
//! aggregate response without aborting the batch.

use vstd::prelude::*;
use vstd::string::StringExecFns;

use crate::catalog::{
    spec_cat_get, spec_cat_set, spec_doc_remove, spec_doc_set, spec_shallow_merge, Catalog, IndexV,
};
use crate::errors::{spec_error_message, GbsError, GbsErrorV};
use crate::value::{spec_obj_get, ValV, Val};

verus! {

broadcast use vstd::std_specs::vec::group_vec_axioms;

/// One bulk action.
pub enum BulkAction {
    Index { index: String, id: Option<String>, document: Val },
    Create { index: String, id: Option<String>, document: Val },
    Update { index: String, id: String, document: Val },
    Delete { index: String, id: String },
}

/// The mathematical model of a [`BulkAction`].
pub ghost enum BulkActionV {
    Index { index: Seq<char>, id: Option<Seq<char>>, document: ValV },
    Create { index: Seq<char>, id: Option<Seq<char>>, document: ValV },
    Update { index: Seq<char>, id: Seq<char>, document: ValV },
    Delete { index: Seq<char>, id: Seq<char> },
}

pub open spec fn opt_str_view(s: Option<String>) -> Option<Seq<char>> {
    match s {
        Option::Some(x) => Option::Some(x@),
        Option::None => Option::None,
    }
}

impl View for BulkAction {
    type V = BulkActionV;

    open spec fn view(&self) -> BulkActionV {
        match self {
            BulkAction::Index { index, id, document } => BulkActionV::Index {
                index: index@,
                id: opt_str_view(*id),
                document: document@,
            },
            BulkAction::Create { index, id, document } => BulkActionV::Create {
                index: index@,
                id: opt_str_view(*id),
                document: document@,
            },
            BulkAction::Update { index, id, document } => BulkActionV::Update {
                index: index@,
                id: id@,
                document: document@,
            },
            BulkAction::Delete { index, id } => BulkActionV::Delete { index: index@, id: id@ },
        }
    }
}

/// Shard bookkeeping carried on bulk items.
pub struct ShardsInfo {
    pub total: u32,
    pub successful: u32,
    pub failed: u32,
}

/// The mathematical model of a [`ShardsInfo`].
pub ghost struct ShardsInfoV {
    pub total: u32,
    pub successful: u32,
    pub failed: u32,
}

impl View for ShardsInfo {
    type V = ShardsInfoV;

    open spec fn view(&self) -> ShardsInfoV {
        ShardsInfoV { total: self.total, successful: self.successful, failed: self.failed }
    }
}

/// A structured per-item error.
pub struct BulkError {
    pub type_: String,
    pub reason: String,
}

/// The mathematical model of a [`BulkError`].
pub ghost struct BulkErrorV {
    pub type_: Seq<char>,
    pub reason: Seq<char>,
}

impl View for BulkError {
    type V = BulkErrorV;

    open spec fn view(&self) -> BulkErrorV {
        BulkErrorV { type_: self.type_@, reason: self.reason@ }
    }
}

/// The outcome of one bulk item.
pub struct BulkOperationResult {
    pub index: String,
    pub type_: String,
    pub id: String,
    pub version: Option<u32>,
    pub result: Option<String>,
    pub shards: Option<ShardsInfo>,
    pub status: u16,
    pub error: Option<BulkError>,
}

/// The mathematical model of a [`BulkOperationResult`].
pub ghost struct BulkOperationResultV {
    pub index: Seq<char>,
    pub type_: Seq<char>,
    pub id: Seq<char>,
    pub version: Option<u32>,
    pub result: Option<Seq<char>>,
    pub shards: Option<ShardsInfoV>,
    pub status: u16,
    pub error: Option<BulkErrorV>,
}

impl View for BulkOperationResult {
    type V = BulkOperationResultV;

    open spec fn view(&self) -> BulkOperationResultV {
        BulkOperationResultV {
            index: self.index@,
            type_: self.type_@,
            id: self.id@,
            version: self.version,
            result: opt_str_view(self.result),
            shards: match self.shards {
                Option::Some(s) => Option::Some(s@),
                Option::None => Option::None,
            },
            status: self.status,
            error: match self.error {
                Option::Some(e) => Option::Some(e@),
                Option::None => Option::None,
            },
        }
    }
}

/// One item of a bulk response, tagged by its action kind.
pub enum BulkItemResponse {
    Index { index: BulkOperationResult },
    Create { create: BulkOperationResult },
    Update { update: BulkOperationResult },
    Delete { delete: BulkOperationResult },
}

/// The mathematical model of a [`BulkItemResponse`].
pub ghost enum BulkItemResponseV {
    Index { index: BulkOperationResultV },
    Create { create: BulkOperationResultV },
    Update { update: BulkOperationResultV },
    Delete { delete: BulkOperationResultV },
}

impl View for BulkItemResponse {
    type V = BulkItemResponseV;

    open spec fn view(&self) -> BulkItemResponseV {
        match self {
            BulkItemResponse::Index { index } => BulkItemResponseV::Index { index: index@ },
            BulkItemResponse::Create { create } => BulkItemResponseV::Create { create: create@ },
            BulkItemResponse::Update { update } => BulkItemResponseV::Update { update: update@ },
            BulkItemResponse::Delete { delete } => BulkItemResponseV::Delete { delete: delete@ },
        }
    }
}

/// The aggregate bulk response; `took` is filled in by the caller that
/// measures the request.
pub struct BulkResponse {
    pub took: u32,
    pub errors: bool,
    pub items: Vec<BulkItemResponse>,
}

pub open spec fn items_view(s: Seq<BulkItemResponse>) -> Seq<BulkItemResponseV> {
    Seq::new(
        s.len(),
        |i: int|
            if 0 <= i < s.len() {
                s[i]@
            } else {
                (BulkItemResponseV::Delete {
                    delete: BulkOperationResultV {
                        index: Seq::empty(),
                        type_: Seq::empty(),
                        id: Seq::empty(),
                        version: Option::None,
                        result: Option::None,
                        shards: Option::None,
                        status: 0,
                        error: Option::None,
                    },
                })
            },
    )
}

/// The id an action stores under: its own, else the freshly generated one.
pub open spec fn spec_used_id(a: BulkActionV, fresh: Seq<char>) -> Seq<char> {
    match a {
        BulkActionV::Index { id, .. } => match id {
            Option::Some(x) => x,
            Option::None => fresh,
        },
        BulkActionV::Create { id, .. } => match id {
            Option::Some(x) => x,
            Option::None => fresh,
        },
        BulkActionV::Update { id, .. } => id,
        BulkActionV::Delete { id, .. } => id,
    }
}

/// The catalog after one action and its operation outcome: the new state,
/// the status code, the result word, and the error when the item failed.
pub open spec fn spec_bulk_action(
    cat: Seq<(Seq<char>, IndexV)>,
    a: BulkActionV,
    fresh: Seq<char>,
) -> (Seq<(Seq<char>, IndexV)>, Result<(Seq<char>, Seq<char>, u16, Option<Seq<char>>), GbsErrorV>) {
    let used = spec_used_id(a, fresh);
    match a {
        BulkActionV::Index { index, id, document } => {
            match spec_cat_get(cat, index) {
                Option::Some(idx) => (
                    spec_cat_set(
                        cat,
                        index,
                        (IndexV { documents: spec_doc_set(idx.documents, used, document), ..idx }),
                    ),
                    Result::Ok((index, used, 201u16, Option::Some("created"@))),
                ),
                Option::None => (cat, Result::Err(GbsErrorV::IndexNotFound(index))),
            }
        },
        BulkActionV::Create { index, id, document } => {
            match spec_cat_get(cat, index) {
                Option::Some(idx) => {
                    if spec_obj_get(idx.documents, used) is Some {
                        (
                            cat,
                            Result::Err(
                                GbsErrorV::InvalidRequest(
                                    "Document "@ + used + " already exists"@,
                                ),
                            ),
                        )
                    } else {
                        (
                            spec_cat_set(
                                cat,
                                index,
                                (IndexV {
                                    documents: spec_doc_set(idx.documents, used, document),
                                    ..idx
                                }),
                            ),
                            Result::Ok((index, used, 201u16, Option::Some("created"@))),
                        )
                    }
                },
                Option::None => (cat, Result::Err(GbsErrorV::IndexNotFound(index))),
            }
        },
        BulkActionV::Update { index, id, document } => {
            let merged = match spec_cat_get(cat, index) {
                Option::Some(idx) => match spec_obj_get(idx.documents, id) {
                    Option::Some(existing) => spec_shallow_merge(existing, document),
                    Option::None => document,
                },
                Option::None => document,
            };
            match spec_cat_get(cat, index) {
                Option::Some(idx) => (
                    spec_cat_set(
                        cat,
                        index,
                        (IndexV { documents: spec_doc_set(idx.documents, id, merged), ..idx }),
                    ),
                    Result::Ok((index, id, 200u16, Option::Some("updated"@))),
                ),
                Option::None => (cat, Result::Err(GbsErrorV::IndexNotFound(index))),
            }
        },
        BulkActionV::Delete { index, id } => {
            match spec_cat_get(cat, index) {
                Option::Some(idx) => match spec_obj_get(idx.documents, id) {
                    Option::Some(_) => (
                        spec_cat_set(
                            cat,
                            index,
                            (IndexV { documents: spec_doc_remove(idx.documents, id), ..idx }),
                        ),
                        Result::Ok((index, id, 200u16, Option::Some("deleted"@))),
                    ),
                    Option::None => (cat, Result::Err(GbsErrorV::DocumentNotFound(id))),
                },
                Option::None => (cat, Result::Err(GbsErrorV::IndexNotFound(index))),
            }
        },
    }
}

impl Catalog {
    /// Apply one bulk action with the given fallback id for actions that
    /// carry none.
    pub fn execute_bulk_action_with(&mut self, action: BulkAction, fresh_id: String) -> (r: Result<
        (String, String, u16, Option<String>),
        GbsError,
    >)
        ensures
            final(self)@ == spec_bulk_action(old(self)@, action@, fresh_id@).0,
            (match r {
                Result::Ok(t) => Result::<_, GbsErrorV>::Ok((t.0@, t.1@, t.2, opt_str_view(t.3))),
                Result::Err(e) => Result::Err(e@),
            }) == spec_bulk_action(old(self)@, action@, fresh_id@).1,
    {
        match action {
            BulkAction::Index { index, id, document } => {
                let doc_id = match id {
                    Some(x) => x,
                    None => fresh_id,
                };
                match self.index_document(index.as_str(), doc_id.as_str(), document) {
                    Ok(_) => Ok((index, doc_id, 201, Some("created".to_owned()))),
                    Err(e) => Err(e),
                }
            },
            BulkAction::Create { index, id, document } => {
                let doc_id = match id {
                    Some(x) => x,
                    None => fresh_id,
                };
                if self.index_exists(index.as_str()) {
                    let has = match self.find_document(index.as_str(), doc_id.as_str()) {
                        Some(_) => true,
                        None => false,
                    };
                    if has {
                        let msg = "Document ".to_owned().concat(doc_id.as_str()).concat(
                            " already exists",
                        );
                        return Err(GbsError::InvalidRequest(msg));
                    }
                }
                match self.index_document(index.as_str(), doc_id.as_str(), document) {
                    Ok(_) => Ok((index, doc_id, 201, Some("created".to_owned()))),
                    Err(e) => Err(e),
                }
            },
            BulkAction::Update { index, id, document } => {
                let merged = match self.find_document(index.as_str(), id.as_str()) {
                    Some(existing) => {
                        let base = existing.clone();
                        crate::catalog::shallow_merge(base, &document)
                    },
                    None => document,
                };
                match self.index_document(index.as_str(), id.as_str(), merged) {
                    Ok(_) => Ok((index, id, 200, Some("updated".to_owned()))),
                    Err(e) => Err(e),
                }
            },
            BulkAction::Delete { index, id } => {
                match self.delete_document(index.as_str(), id.as_str()) {
                    Ok(_) => Ok((index, id, 200, Some("deleted".to_owned()))),
                    Err(e) => Err(e),
                }
            },
        }
    }

    /// The stored document with the given id, if any.
    fn find_document(&self, index_name: &str, id: &str) -> (r: Option<&Val>)
        ensures
            match r {
                Option::Some(v) => match spec_cat_get(self@, index_name@) {
                    Option::Some(idx) => spec_obj_get(idx.documents, id@) == Option::Some(v@),
                    Option::None => false,
                },
                Option::None => match spec_cat_get(self@, index_name@) {
                    Option::Some(idx) => spec_obj_get(idx.documents, id@) is None,
                    Option::None => true,
                },
            },
    {
        match self.find_index_pos(index_name) {
            Some(i) => {
                let key = crate::text::str_chars(id);
                crate::value::obj_get(&self.indices[i].1.documents, &key)
            },
            None => None,
        }
    }

    /// Position of the named index (shared helper for the bulk executor).
    fn find_index_pos(&self, name: &str) -> (r: Option<usize>)
        ensures
            match r {
                Option::Some(i) => i < self.indices@.len() && self@[i as int].0 == name@
                    && spec_cat_get(self@, name@) == Option::Some(self@[i as int].1),
                Option::None => spec_cat_get(self@, name@) is None,
            },
    {
        let ghost cv = self@;
        let mut i: usize = 0;
        proof {
            assert(cv.skip(0) =~= cv);
        }
        while i < self.indices.len()
            invariant
                i <= self.indices@.len(),
                cv == self@,
                cv.len() == self.indices@.len(),
                spec_cat_get(cv, name@) == spec_cat_get(cv.skip(i as int), name@),
            decreases self.indices@.len() - i,
        {
            proof {
                assert(cv.skip(i as int)[0] == cv[i as int]);
                assert(cv[i as int] == (self.indices@[i as int].0@, self.indices@[i as int].1@));
                assert(cv.skip(i as int).skip(1) =~= cv.skip(i as int + 1));
            }
            if crate::text::str_eq(self.indices[i].0.as_str(), name) {
                return Some(i);
            }
            i += 1;
        }
        proof {
            assert(cv.skip(cv.len() as int).len() == 0);
        }
        None
    }

    /// Apply one bulk action, generating an id for actions that carry
    /// none.
    pub fn execute_bulk_action(&mut self, action: BulkAction) -> (r: Result<
        (String, String, u16, Option<String>),
        GbsError,
    >)
        ensures
            exists|fresh: Seq<char>|
                {
                    &&& fresh.len() == 36
                    &&& final(self)@ == spec_bulk_action(old(self)@, action@, fresh).0
                    &&& (match r {
                        Result::Ok(t) => Result::<_, GbsErrorV>::Ok(
                            (t.0@, t.1@, t.2, opt_str_view(t.3)),
                        ),
                        Result::Err(e) => Result::Err(e@),
                    }) == spec_bulk_action(old(self)@, action@, fresh).1
                },
    {
        let fresh = crate::trusted::new_doc_id();
        let ghost fv = fresh@;
        let r = self.execute_bulk_action_with(action, fresh);
        proof {
            assert(fv.len() == 36);
        }
        r
    }
}


pub open spec fn actions_view(s: Seq<BulkAction>) -> Seq<BulkActionV> {
    Seq::new(
        s.len(),
        |i: int|
            if 0 <= i < s.len() {
                s[i]@
            } else {
                (BulkActionV::Delete { index: Seq::empty(), id: Seq::empty() })
            },
    )
}

/// The index an action addresses.
pub open spec fn spec_action_index(a: BulkActionV) -> Seq<char> {
    match a {
        BulkActionV::Index { index, .. } => index,
        BulkActionV::Create { index, .. } => index,
        BulkActionV::Update { index, .. } => index,
        BulkActionV::Delete { index, .. } => index,
    }
}

/// The id reported for a failed item: the action's own id, else `unknown`.
pub open spec fn spec_action_err_id(a: BulkActionV) -> Seq<char> {
    match a {
        BulkActionV::Index { id, .. } => match id {
            Option::Some(x) => x,
            Option::None => "unknown"@,
        },
        BulkActionV::Create { id, .. } => match id {
            Option::Some(x) => x,
            Option::None => "unknown"@,
        },
        BulkActionV::Update { id, .. } => id,
        BulkActionV::Delete { id, .. } => id,
    }
}

/// The per-item record of one action's outcome: on success the operation
/// fields and status, on failure a 400 with the error's type and message.
pub open spec fn spec_item_result(
    cat: Seq<(Seq<char>, IndexV)>,
    a: BulkActionV,
    fresh: Seq<char>,
) -> BulkOperationResultV {
    match spec_bulk_action(cat, a, fresh).1 {
        Result::Ok(t) => BulkOperationResultV {
            index: t.0,
            type_: "_doc"@,
            id: t.1,
            version: Option::Some(1u32),
            result: t.3,
            shards: Option::Some(ShardsInfoV { total: 1, successful: 1, failed: 0 }),
            status: t.2,
            error: Option::None,
        },
        Result::Err(e) => BulkOperationResultV {
            index: spec_action_index(a),
            type_: "_doc"@,
            id: spec_action_err_id(a),
            version: Option::None,
            result: Option::None,
            shards: Option::Some(ShardsInfoV { total: 1, successful: 0, failed: 1 }),
            status: 400,
            error: Option::Some(
                BulkErrorV {
                    type_: "invalid_request_exception"@,
                    reason: spec_error_message(e),
                },
            ),
        },
    }
}

/// Wrap an item record under its action kind.
pub open spec fn spec_wrap_item(a: BulkActionV, res: BulkOperationResultV) -> BulkItemResponseV {
    match a {
        BulkActionV::Index { .. } => BulkItemResponseV::Index { index: res },
        BulkActionV::Create { .. } => BulkItemResponseV::Create { create: res },
        BulkActionV::Update { .. } => BulkItemResponseV::Update { update: res },
        BulkActionV::Delete { .. } => BulkItemResponseV::Delete { delete: res },
    }
}

pub open spec fn spec_item_failed(item: BulkItemResponseV) -> bool {
    match item {
        BulkItemResponseV::Index { index } => index.error is Some,
        BulkItemResponseV::Create { create } => create.error is Some,
        BulkItemResponseV::Update { update } => update.error is Some,
        BulkItemResponseV::Delete { delete } => delete.error is Some,
    }
}

/// The batch fold: the catalog, the items produced, and the error flag
/// after the first `i` actions, given the fresh ids the executor drew.
pub open spec fn spec_bulk_fold(
    cat: Seq<(Seq<char>, IndexV)>,
    actions: Seq<BulkActionV>,
    ids: Seq<Seq<char>>,
    i: int,
) -> (Seq<(Seq<char>, IndexV)>, Seq<BulkItemResponseV>, bool)
    decreases i,
{
    if i <= 0 || i > actions.len() {
        (cat, Seq::empty(), false)
    } else {
        let prev = spec_bulk_fold(cat, actions, ids, i - 1);
        let fresh = if 0 <= i - 1 < ids.len() {
            ids[i - 1]
        } else {
            Seq::empty()
        };
        let item = spec_wrap_item(actions[i - 1], spec_item_result(prev.0, actions[i - 1], fresh));
        (
            spec_bulk_action(prev.0, actions[i - 1], fresh).0,
            prev.1.push(item),
            prev.2 || spec_item_failed(item),
        )
    }
}

/// The whole-batch postcondition, for one choice of drawn ids.
pub open spec fn spec_bulk_post(
    cat0: Seq<(Seq<char>, IndexV)>,
    actions: Seq<BulkActionV>,
    ids: Seq<Seq<char>>,
    cat1: Seq<(Seq<char>, IndexV)>,
    items: Seq<BulkItemResponseV>,
    errors: bool,
) -> bool {
    let f = spec_bulk_fold(cat0, actions, ids, actions.len() as int);
    &&& ids.len() == actions.len()
    &&& cat1 == f.0
    &&& items == f.1
    &&& errors == f.2
}

impl Catalog {
    /// Apply a batch of bulk actions in order. Each item's failure is
    /// captured in its response record; the batch always completes. The
    /// `took` field is left at zero for the caller to fill in.
    pub fn execute_bulk(&mut self, actions: Vec<BulkAction>) -> (r: BulkResponse)
        ensures
            r.took == 0,
            exists|ids: Seq<Seq<char>>|
                spec_bulk_post(
                    old(self)@,
                    actions_view(actions@),
                    ids,
                    final(self)@,
                    items_view(r.items@),
                    r.errors,
                ),
    {
        let ghost cat0 = self@;
        let ghost av = actions_view(actions@);
        let mut items: Vec<BulkItemResponse> = Vec::new();
        let mut has_errors = false;
        let ghost mut ids: Seq<Seq<char>> = Seq::empty();
        let mut i: usize = 0;
        proof {
            assert(items_view(items@) =~= Seq::<BulkItemResponseV>::empty());
        }
        while i < actions.len()
            invariant
                i <= actions@.len(),
                av == actions_view(actions@),
                av.len() == actions@.len(),
                ids.len() == i,
                (self@, items_view(items@), has_errors) == spec_bulk_fold(cat0, av, ids, i as int),
            decreases actions@.len() - i,
        {
            proof {
                assert(av[i as int] == actions@[i as int]@);
            }
            let ghost mid = self@;
            let action = actions[i].clone_action();
            let (kind, index_name, err_id) = action.tag_fields();
            let fresh = crate::trusted::new_doc_id();
            let ghost fv = fresh@;
            let ghost ids_old = ids;
            proof {
                ids = ids.push(fv);
            }
            let outcome = self.execute_bulk_action_with(action, fresh);
            let result_record: BulkOperationResult = match outcome {
                Ok(t) => {
                    let (ix, doc_id, status, result) = t;
                    BulkOperationResult {
                        index: ix,
                        type_: "_doc".to_owned(),
                        id: doc_id,
                        version: Some(1),
                        result,
                        shards: Some(ShardsInfo { total: 1, successful: 1, failed: 0 }),
                        status,
                        error: None,
                    }
                },
                Err(e) => {
                    has_errors = true;
                    let reason = e.message();
                    BulkOperationResult {
                        index: index_name,
                        type_: "_doc".to_owned(),
                        id: err_id,
                        version: None,
                        result: None,
                        shards: Some(ShardsInfo { total: 1, successful: 0, failed: 1 }),
                        status: 400,
                        error: Some(
                            BulkError {
                                type_: "invalid_request_exception".to_owned(),
                                reason,
                            },
                        ),
                    }
                },
            };
            proof {
                assert(result_record@ == spec_item_result(mid, av[i as int], fv));
            }
            let item: BulkItemResponse = match kind {
                0u8 => BulkItemResponse::Index { index: result_record },
                1u8 => BulkItemResponse::Create { create: result_record },
                2u8 => BulkItemResponse::Update { update: result_record },
                _ => BulkItemResponse::Delete { delete: result_record },
            };
            let ghost before_items = items_view(items@);
            items.push(item);
            proof {
                assert(items_view(items@) =~= before_items.push(
                    spec_wrap_item(av[i as int], spec_item_result(mid, av[i as int], fv)),
                ));
                assert(ids.take(i as int) =~= ids_old);
                lemma_bulk_fold_extend(cat0, av, ids, i as int);
                assert(ids[i as int] == fv);
            }
            i += 1;
        }
        let resp = BulkResponse { took: 0, errors: has_errors, items };
        proof {
            assert(exists|chosen: Seq<Seq<char>>|
                spec_bulk_post(
                    old(self)@,
                    actions_view(actions@),
                    chosen,
                    self@,
                    items_view(resp.items@),
                    resp.errors,
                )) by {
                assert(spec_bulk_post(
                    old(self)@,
                    actions_view(actions@),
                    ids,
                    self@,
                    items_view(resp.items@),
                    resp.errors,
                ));
            }
        }
        resp
    }
}

/// Extending the id list does not change the fold over a prefix.
proof fn lemma_bulk_fold_extend(
    cat: Seq<(Seq<char>, IndexV)>,
    actions: Seq<BulkActionV>,
    ids: Seq<Seq<char>>,
    i: int,
)
    requires
        0 <= i <= ids.len(),
    ensures
        spec_bulk_fold(cat, actions, ids.take(i), i) == spec_bulk_fold(cat, actions, ids, i),
    decreases i,
{
    if i > 0 && i <= actions.len() {
        lemma_bulk_fold_extend(cat, actions, ids, i - 1);
        assert(ids.take(i).take(i - 1) =~= ids.take(i - 1));
        lemma_bulk_fold_take_two(cat, actions, ids, i - 1, i);
    }
}

/// The fold only reads the first `i` ids.
proof fn lemma_bulk_fold_take_two(
    cat: Seq<(Seq<char>, IndexV)>,
    actions: Seq<BulkActionV>,
    ids: Seq<Seq<char>>,
    j: int,
    i: int,
)
    requires
        0 <= j < i <= ids.len(),
    ensures
        spec_bulk_fold(cat, actions, ids.take(i), j) == spec_bulk_fold(cat, actions, ids, j),
    decreases j,
{
    if j > 0 && j <= actions.len() {
        lemma_bulk_fold_take_two(cat, actions, ids, j - 1, i);
    }
}

impl BulkAction {
    /// Copy of the action, with the same model.
    pub fn clone_action(&self) -> (r: BulkAction)
        ensures
            r@ == self@,
    {
        match self {
            BulkAction::Index { index, id, document } => BulkAction::Index {
                index: index.clone(),
                id: match id {
                    Some(x) => Some(x.clone()),
                    None => None,
                },
                document: document.clone(),
            },
            BulkAction::Create { index, id, document } => BulkAction::Create {
                index: index.clone(),
                id: match id {
                    Some(x) => Some(x.clone()),
                    None => None,
                },
                document: document.clone(),
            },
            BulkAction::Update { index, id, document } => BulkAction::Update {
                index: index.clone(),
                id: id.clone(),
                document: document.clone(),
            },
            BulkAction::Delete { index, id } => BulkAction::Delete {
                index: index.clone(),
                id: id.clone(),
            },
        }
    }

    /// The action's kind tag, its index name, and the id to report on a
    /// failure.
    pub fn tag_fields(&self) -> (r: (u8, String, String))
        ensures
            r.0 == (match self@ {
                BulkActionV::Index { .. } => 0u8,
                BulkActionV::Create { .. } => 1u8,
                BulkActionV::Update { .. } => 2u8,
                BulkActionV::Delete { .. } => 3u8,
            }),
            r.1@ == spec_action_index(self@),
            r.2@ == spec_action_err_id(self@),
    {
        match self {
            BulkAction::Index { index, id, .. } => {
                let err_id = match id {
                    Some(x) => x.clone(),
                    None => "unknown".to_owned(),
                };
                (0, index.clone(), err_id)
            },
            BulkAction::Create { index, id, .. } => {
                let err_id = match id {
                    Some(x) => x.clone(),
                    None => "unknown".to_owned(),
                };
                (1, index.clone(), err_id)
            },
            BulkAction::Update { index, id, .. } => (2, index.clone(), id.clone()),
            BulkAction::Delete { index, id } => (3, index.clone(), id.clone()),
        }
    }
}


/// Length of the leading run up to the first newline.
pub open spec fn spec_nl_run(s: Seq<char>) -> nat
    decreases s.len(),
{
    if s.len() == 0 || s[0] == '\n' {
        0
    } else {
        1 + spec_nl_run(s.skip(1))
    }
}

proof fn lemma_nl_run_bound(s: Seq<char>)
    ensures
        spec_nl_run(s) <= s.len(),
        forall|k: int| 0 <= k < spec_nl_run(s) ==> s[k] != '\n',
        spec_nl_run(s) < s.len() ==> s[spec_nl_run(s) as int] == '\n',
    decreases s.len(),
{
    if s.len() == 0 || s[0] == '\n' {
    } else {
        lemma_nl_run_bound(s.skip(1));
        assert forall|k: int| 0 <= k < spec_nl_run(s) implies s[k] != '\n' by {
            if k > 0 {
                assert(s.skip(1)[k - 1] != '\n');
            }
        }
    }
}

proof fn lemma_nl_run_exact(s: Seq<char>, n: int)
    requires
        0 <= n <= s.len(),
        forall|k: int| 0 <= k < n ==> s[k] != '\n',
        n < s.len() ==> s[n] == '\n',
    ensures
        spec_nl_run(s) == n,
    decreases s.len(),
{
    if s.len() == 0 {
    } else if n == 0 {
    } else {
        assert(s[0] != '\n');
        assert forall|k: int| 0 <= k < n - 1 implies s.skip(1)[k] != '\n' by {
            assert(s.skip(1)[k] == s[k + 1]);
        }
        assert(n - 1 < s.skip(1).len() ==> s.skip(1)[n - 1] == '\n');
        lemma_nl_run_exact(s.skip(1), n - 1);
    }
}

/// A line's text, with a trailing carriage return stripped.
pub open spec fn spec_strip_cr(p: Seq<char>) -> Seq<char> {
    if p.len() > 0 && p.last() == '\r' {
        p.drop_last()
    } else {
        p
    }
}

/// A line holds something other than whitespace.
pub open spec fn spec_nonblank(p: Seq<char>) -> bool {
    exists|i: int| 0 <= i < p.len() && !crate::text::spec_is_ws(p[i])
}

/// The non-blank lines of a request body, in order: split on newlines,
/// trailing carriage returns stripped, whitespace-only lines dropped.
pub open spec fn spec_nonblank_lines(s: Seq<char>) -> Seq<Seq<char>>
    decreases s.len(),
    via spec_nonblank_lines_decreases
{
    if s.len() == 0 {
        Seq::empty()
    } else {
        let k = spec_nl_run(s);
        let part = spec_strip_cr(s.take(k as int));
        let head: Seq<Seq<char>> = if spec_nonblank(part) {
            seq![part]
        } else {
            Seq::empty()
        };
        if k == s.len() {
            head
        } else {
            head + spec_nonblank_lines(s.skip(k as int + 1))
        }
    }
}

#[via_fn]
proof fn spec_nonblank_lines_decreases(s: Seq<char>) {
    lemma_nl_run_bound(s);
}

/// Split a request body into its non-blank lines.
pub fn split_nonblank_lines(body: &str) -> (r: Vec<Vec<char>>)
    ensures
        r.deep_view() == spec_nonblank_lines(body@),
{
    let v = crate::text::str_chars(body);
    let mut r: Vec<Vec<char>> = Vec::new();
    let mut i: usize = 0;
    proof {
        assert(v@.skip(0) =~= v@);
        assert(r.deep_view() =~= Seq::<Seq<char>>::empty());
        assert(r.deep_view() + spec_nonblank_lines(v@) =~= spec_nonblank_lines(v@));
    }
    while i < v.len()
        invariant
            i <= v@.len(),
            v@ == body@,
            r.deep_view() + spec_nonblank_lines(v@.skip(i as int)) == spec_nonblank_lines(v@),
        decreases v@.len() - i,
    {
        let ghost rest = v@.skip(i as int);
        let start = i;
        let mut j: usize = i;
        while j < v.len() && v[j] != '\n'
            invariant
                start <= j <= v@.len(),
                forall|k: int| start <= k < j ==> v@[k] != '\n',
            decreases v@.len() - j,
        {
            j += 1;
        }
        proof {
            assert forall|k: int| 0 <= k < j - start implies rest[k] != '\n' by {
                assert(rest[k] == v@[i + k]);
            }
            assert(j - start < rest.len() ==> rest[j - start] == '\n');
            lemma_nl_run_exact(rest, j - start);
        }
        // copy the line, stripping a trailing carriage return
        let mut end = j;
        if end > start && v[end - 1] == '\r' {
            end -= 1;
        }
        let mut line: Vec<char> = Vec::new();
        let mut k: usize = start;
        while k < end
            invariant
                start <= k <= end <= v@.len(),
                line@ == v@.subrange(start as int, k as int),
            decreases end - k,
        {
            line.push(v[k]);
            k += 1;
            proof {
                assert(line@ =~= v@.subrange(start as int, k as int));
            }
        }
        proof {
            assert(rest.take(spec_nl_run(rest) as int) =~= v@.subrange(start as int, j as int));
            if j > start && v@[j - 1] == '\r' {
                assert(spec_strip_cr(rest.take(spec_nl_run(rest) as int)) =~= v@.subrange(
                    start as int,
                    j - 1,
                ));
            }
            assert(line@ =~= spec_strip_cr(rest.take(spec_nl_run(rest) as int)));
        }
        // keep the line when it holds something besides whitespace
        let mut blank = true;
        let mut t: usize = 0;
        while t < line.len()
            invariant
                t <= line@.len(),
                blank == forall|k: int| 0 <= k < t ==> crate::text::spec_is_ws(line@[k]),
            decreases line@.len() - t,
        {
            if !crate::text::is_ws(line[t]) {
                blank = false;
                t = line.len();
            } else {
                t += 1;
            }
        }
        if !blank {
            let ghost old_dv = r.deep_view();
            proof {
                assert(line.deep_view() =~= line@);
            }
            r.push(line);
            proof {
                assert(r.deep_view() =~= old_dv.push(spec_strip_cr(rest.take(
                    spec_nl_run(rest) as int,
                ))));
            }
        } else {
            proof {
                assert(!spec_nonblank(line@));
            }
        }
        proof {
            if j < v@.len() {
                assert(rest.skip(spec_nl_run(rest) as int + 1) =~= v@.skip(j + 1));
                assert(r.deep_view() + spec_nonblank_lines(v@.skip(j + 1)) =~= spec_nonblank_lines(
                    v@,
                ));
            } else {
                assert(spec_nl_run(rest) == rest.len());
                assert(r.deep_view() =~= spec_nonblank_lines(v@));
                assert(v@.skip(v@.len() as int).len() == 0);
            }
        }
        if j >= v.len() {
            return r;
        }
        i = j + 1;
    }
    proof {
        assert(v@.skip(i as int).len() == 0);
    }
    r
}

/// The field of an object value, `None` on any other value.
pub open spec fn spec_value_get(v: ValV, key: Seq<char>) -> Option<ValV> {
    match v {
        ValV::Obj(fields) => spec_obj_get(fields, key),
        _ => Option::None,
    }
}

/// A string field's text.
pub open spec fn spec_as_str(v: Option<ValV>) -> Option<Seq<char>> {
    match v {
        Option::Some(x) => match x {
            ValV::Str(s) => Option::Some(s),
            _ => Option::None,
        },
        _ => Option::None,
    }
}

/// The index an action header names: its `_index` field, else the request
/// default.
pub open spec fn spec_header_index(hdr: ValV, dflt: Option<Seq<char>>) -> Option<Seq<char>> {
    match spec_as_str(spec_value_get(hdr, "_index"@)) {
        Option::Some(s) => Option::Some(s),
        Option::None => dflt,
    }
}

/// The bulk actions denoted by the non-blank request lines from position
/// `i` on, through the JSON reading of each line.
pub open spec fn spec_parse_bulk(
    lines: Seq<Seq<char>>,
    dflt: Option<Seq<char>>,
    i: int,
) -> Result<Seq<BulkActionV>, GbsErrorV>
    decreases lines.len() - i,
    when 0 <= i
{
    if i >= lines.len() {
        Result::Ok(Seq::empty())
    } else {
        match crate::trusted::json_of(lines[i]) {
            Option::None => Result::Err(
                GbsErrorV::InvalidRequest(
                    "Invalid JSON in bulk action: "@ + crate::trusted::json_err_of(lines[i]),
                ),
            ),
            Option::Some(aj) => {
                if spec_value_get(aj, "index"@) is Some {
                    spec_parse_doc_action(lines, dflt, i, spec_value_get(aj, "index"@)->Some_0, 0)
                } else if spec_value_get(aj, "create"@) is Some {
                    spec_parse_doc_action(lines, dflt, i, spec_value_get(aj, "create"@)->Some_0, 1)
                } else if spec_value_get(aj, "update"@) is Some {
                    spec_parse_doc_action(lines, dflt, i, spec_value_get(aj, "update"@)->Some_0, 2)
                } else if spec_value_get(aj, "delete"@) is Some {
                    let hdr = spec_value_get(aj, "delete"@)->Some_0;
                    match spec_header_index(hdr, dflt) {
                        Option::None => Result::Err(
                            GbsErrorV::InvalidRequest("Missing _index in bulk action"@),
                        ),
                        Option::Some(ixname) => match spec_as_str(
                            spec_value_get(hdr, "_id"@),
                        ) {
                            Option::None => Result::Err(
                                GbsErrorV::InvalidRequest("Missing _id in delete action"@),
                            ),
                            Option::Some(id) => match spec_parse_bulk(lines, dflt, i + 1) {
                                Result::Ok(rest) => Result::Ok(
                                    seq![(BulkActionV::Delete { index: ixname, id: id })] + rest,
                                ),
                                Result::Err(e) => Result::Err(e),
                            },
                        },
                    }
                } else {
                    Result::Err(
                        GbsErrorV::InvalidRequest("Unknown bulk action: "@ + lines[i]),
                    )
                }
            },
        }
    }
}

/// One document-carrying action (`index`, `create` or `update`, by `kind`):
/// reads its header and the following line as the document.
pub open spec fn spec_parse_doc_action(
    lines: Seq<Seq<char>>,
    dflt: Option<Seq<char>>,
    i: int,
    hdr: ValV,
    kind: int,
) -> Result<Seq<BulkActionV>, GbsErrorV>
    decreases lines.len() - i, 0int,
    when 0 <= i < lines.len()
{
    match spec_header_index(hdr, dflt) {
        Option::None => Result::Err(GbsErrorV::InvalidRequest("Missing _index in bulk action"@)),
        Option::Some(ixname) => {
            let id = spec_as_str(spec_value_get(hdr, "_id"@));
            if kind == 2 && id is None {
                Result::Err(GbsErrorV::InvalidRequest("Missing _id in update action"@))
            } else if i + 1 >= lines.len() {
                Result::Err(
                    GbsErrorV::InvalidRequest(
                        if kind == 0 {
                            "Missing document for index action"@
                        } else if kind == 1 {
                            "Missing document for create action"@
                        } else {
                            "Missing document for update action"@
                        },
                    ),
                )
            } else {
                match crate::trusted::json_of(lines[i + 1]) {
                    Option::None => Result::Err(
                        GbsErrorV::InvalidRequest(
                            "Invalid document JSON: "@ + crate::trusted::json_err_of(
                                lines[i + 1],
                            ),
                        ),
                    ),
                    Option::Some(dw) => {
                        let doc = if kind == 2 {
                            match spec_value_get(dw, "doc"@) {
                                Option::Some(d) => d,
                                Option::None => dw,
                            }
                        } else {
                            dw
                        };
                        let act = if kind == 0 {
                            BulkActionV::Index { index: ixname, id: id, document: doc }
                        } else if kind == 1 {
                            BulkActionV::Create { index: ixname, id: id, document: doc }
                        } else {
                            BulkActionV::Update { index: ixname, id: id->Some_0, document: doc }
                        };
                        match spec_parse_bulk(lines, dflt, i + 2) {
                            Result::Ok(rest) => Result::Ok(seq![act] + rest),
                            Result::Err(e) => Result::Err(e),
                        }
                    },
                }
            }
        },
    }
}


/// The field of an object value.
pub fn value_get<'a>(v: &'a Val, key: &Vec<char>) -> (r: Option<&'a Val>)
    ensures
        match r {
            Option::Some(c) => spec_value_get(v@, key@) == Option::Some(c@),
            Option::None => spec_value_get(v@, key@) is None,
        },
{
    match v {
        Val::Obj(fields) => {
            proof {
                crate::value::lemma_obj_view(*fields);
            }
            crate::value::obj_get(fields, key)
        },
        _ => None,
    }
}

/// Read the header of a document-carrying action and the following line's
/// document, yielding the action and leaving the caller to continue two
/// lines further on.
fn parse_doc_action(
    lines: &Vec<Vec<char>>,
    i: usize,
    hdr: &Val,
    kind: u8,
    default_index: Option<&str>,
) -> (r: Result<BulkAction, GbsError>)
    requires
        i < lines.deep_view().len(),
        kind <= 2,
    ensures
        match r {
            Result::Ok(act) => i + 2 <= lines.deep_view().len() && spec_parse_doc_action(
                lines.deep_view(),
                (match default_index {
                    Option::Some(d) => Option::Some(d@),
                    Option::None => Option::None,
                }),
                i as int,
                hdr@,
                kind as int,
            ) == (match spec_parse_bulk(
                lines.deep_view(),
                (match default_index {
                    Option::Some(d) => Option::Some(d@),
                    Option::None => Option::None,
                }),
                i + 2,
            ) {
                Result::<Seq<BulkActionV>, GbsErrorV>::Ok(rest) => Result::<
                    Seq<BulkActionV>,
                    GbsErrorV,
                >::Ok(seq![act@] + rest),
                Result::Err(e) => Result::Err(e),
            }),
            Result::Err(e) => spec_parse_doc_action(
                lines.deep_view(),
                (match default_index {
                    Option::Some(d) => Option::Some(d@),
                    Option::None => Option::None,
                }),
                i as int,
                hdr@,
                kind as int,
            ) == Result::<Seq<BulkActionV>, GbsErrorV>::Err(e@),
        },
{
    let ghost lv = lines.deep_view();
    let n = lines.len();
    proof {
        assert(lv.len() == lines@.len());
    }
    let ghost dvv: Option<Seq<char>> = match default_index {
        Option::Some(d) => Option::Some(d@),
        Option::None => Option::None,
    };
    let k_index = crate::text::str_chars("_index");
    let k_id = crate::text::str_chars("_id");
    let ixname: String = match value_get(hdr, &k_index) {
        Some(v) => match v {
            Val::Str(s) => s.clone(),
            _ => match default_index {
                Some(d) => d.to_owned(),
                None => {
                    return Err(
                        GbsError::InvalidRequest("Missing _index in bulk action".to_owned()),
                    );
                },
            },
        },
        None => match default_index {
            Some(d) => d.to_owned(),
            None => {
                return Err(GbsError::InvalidRequest("Missing _index in bulk action".to_owned()));
            },
        },
    };
    let id: Option<String> = match value_get(hdr, &k_id) {
        Some(v) => match v {
            Val::Str(s) => Some(s.clone()),
            _ => None,
        },
        None => None,
    };
    if kind == 2 && id.is_none() {
        return Err(GbsError::InvalidRequest("Missing _id in update action".to_owned()));
    }
    if i + 1 >= n {
        let msg = if kind == 0 {
            "Missing document for index action"
        } else if kind == 1 {
            "Missing document for create action"
        } else {
            "Missing document for update action"
        };
        return Err(GbsError::InvalidRequest(msg.to_owned()));
    }
    let line_str = crate::text::chars_to_string(&lines[i + 1]);
    proof {
        assert(lv[i + 1] == lines@[i + 1]@);
    }
    match crate::trusted::parse_json(line_str.as_str()) {
        Err(e) => Err(
            GbsError::InvalidRequest("Invalid document JSON: ".to_owned().concat(e.as_str())),
        ),
        Ok(dw) => {
            if kind == 0 {
                Ok(BulkAction::Index { index: ixname, id, document: dw })
            } else if kind == 1 {
                Ok(BulkAction::Create { index: ixname, id, document: dw })
            } else {
                let k_doc = crate::text::str_chars("doc");
                let document = match value_get(&dw, &k_doc) {
                    Some(d) => d.clone(),
                    None => dw,
                };
                let the_id = match id {
                    Some(x) => x,
                    None => {
                        return Err(
                            GbsError::InvalidRequest("Missing _id in update action".to_owned()),
                        );
                    },
                };
                Ok(BulkAction::Update { index: ixname, id: the_id, document })
            }
        },
    }
}

/// Parse a newline-delimited bulk request body into its actions. Each
/// action line may be followed by a document line, as its kind demands; the
/// first malformed line fails the whole request.
pub fn parse_bulk_ndjson(body: &str, default_index: Option<&str>) -> (r: Result<
    Vec<BulkAction>,
    GbsError,
>)
    ensures
        (match r {
            Result::Ok(a) => Result::<Seq<BulkActionV>, GbsErrorV>::Ok(actions_view(a@)),
            Result::Err(e) => Result::Err(e@),
        }) == spec_parse_bulk(
            spec_nonblank_lines(body@),
            (match default_index {
                Option::Some(d) => Option::Some(d@),
                Option::None => Option::None,
            }),
            0,
        ),
{
    let lines = split_nonblank_lines(body);
    let ghost lv = lines.deep_view();
    let ghost dvv: Option<Seq<char>> = match default_index {
        Option::Some(d) => Option::Some(d@),
        Option::None => Option::None,
    };
    let k_index = crate::text::str_chars("index");
    let k_create = crate::text::str_chars("create");
    let k_update = crate::text::str_chars("update");
    let k_delete = crate::text::str_chars("delete");
    let k_underscore_index = crate::text::str_chars("_index");
    let k_id = crate::text::str_chars("_id");
    let mut acts: Vec<BulkAction> = Vec::new();
    let mut i: usize = 0;
    proof {
        assert(actions_view(acts@) =~= Seq::<BulkActionV>::empty());
        assert(match spec_parse_bulk(lv, dvv, 0int) {
            Result::<Seq<BulkActionV>, GbsErrorV>::Ok(rest) => Seq::<
                BulkActionV,
            >::empty() + rest =~= rest,
            Result::Err(_) => true,
        });
    }
    while i < lines.len()
        invariant
            i <= lv.len(),
            lv == lines.deep_view(),
            lv == spec_nonblank_lines(body@),
            lv.len() == lines@.len(),
            dvv == (match default_index {
                Option::Some(d) => Option::Some(d@),
                Option::None => Option::None,
            }),
            k_index@ == "index"@,
            k_create@ == "create"@,
            k_update@ == "update"@,
            k_delete@ == "delete"@,
            k_underscore_index@ == "_index"@,
            k_id@ == "_id"@,
            spec_parse_bulk(lv, dvv, 0int) == (match spec_parse_bulk(lv, dvv, i as int) {
                Result::<Seq<BulkActionV>, GbsErrorV>::Ok(rest) => Result::<
                    Seq<BulkActionV>,
                    GbsErrorV,
                >::Ok(actions_view(acts@) + rest),
                Result::Err(e) => Result::Err(e),
            }),
        decreases lv.len() - i,
    {
        proof {
            assert(lv[i as int] == lines@[i as int]@);
        }
        let line_str = crate::text::chars_to_string(&lines[i]);
        let aj = match crate::trusted::parse_json(line_str.as_str()) {
            Ok(v) => v,
            Err(e) => {
                let err = GbsError::InvalidRequest(
                    "Invalid JSON in bulk action: ".to_owned().concat(e.as_str()),
                );
                proof {
                    assert(spec_parse_bulk(lv, dvv, i as int) == Result::<
                        Seq<BulkActionV>,
                        GbsErrorV,
                    >::Err(err@));
                }
                return Err(err);
            },
        };
        let (hdr_kind, consumed): (u8, usize) = if value_get(&aj, &k_index).is_some() {
            (0u8, 2)
        } else if value_get(&aj, &k_create).is_some() {
            (1u8, 2)
        } else if value_get(&aj, &k_update).is_some() {
            (2u8, 2)
        } else if value_get(&aj, &k_delete).is_some() {
            (3u8, 1)
        } else {
            let reason = "Unknown bulk action: ".to_owned().concat(line_str.as_str());
            let err = GbsError::InvalidRequest(reason);
            proof {
                assert(spec_parse_bulk(lv, dvv, i as int) == Result::<
                    Seq<BulkActionV>,
                    GbsErrorV,
                >::Err(err@));
            }
            return Err(err);
        };
        let ghost before_acts = actions_view(acts@);
        if hdr_kind <= 2 {
            let key = if hdr_kind == 0 {
                &k_index
            } else if hdr_kind == 1 {
                &k_create
            } else {
                &k_update
            };
            let hdr = match value_get(&aj, key) {
                Some(h) => h,
                None => {
                    proof {
                        assert(false);
                    }
                    return Err(GbsError::InvalidRequest("Unknown bulk action: ".to_owned()));
                },
            };
            match parse_doc_action(&lines, i, hdr, hdr_kind, default_index) {
                Ok(act) => {
                    let ghost actv = act@;
                    acts.push(act);
                    proof {
                        assert(actions_view(acts@) =~= before_acts.push(actv));
                        if spec_parse_bulk(lv, dvv, i + 2) is Ok {
                            let rest = spec_parse_bulk(lv, dvv, i + 2)->Ok_0;
                            assert(actions_view(acts@) + rest =~= before_acts + (seq![actv]
                                + rest));
                        }
                    }
                    i += 2;
                },
                Err(e) => {
                    return Err(e);
                },
            }
        } else {
            let hdr = match value_get(&aj, &k_delete) {
                Some(h) => h,
                None => {
                    proof {
                        assert(false);
                    }
                    return Err(GbsError::InvalidRequest("Unknown bulk action: ".to_owned()));
                },
            };
            let ixname: String = match value_get(hdr, &k_underscore_index) {
                Some(v) => match v {
                    Val::Str(s) => s.clone(),
                    _ => match default_index {
                        Some(d) => d.to_owned(),
                        None => {
                            return Err(
                                GbsError::InvalidRequest(
                                    "Missing _index in bulk action".to_owned(),
                                ),
                            );
                        },
                    },
                },
                None => match default_index {
                    Some(d) => d.to_owned(),
                    None => {
                        return Err(
                            GbsError::InvalidRequest("Missing _index in bulk action".to_owned()),
                        );
                    },
                },
            };
            let id: String = match value_get(hdr, &k_id) {
                Some(v) => match v {
                    Val::Str(s) => s.clone(),
                    _ => {
                        return Err(
                            GbsError::InvalidRequest("Missing _id in delete action".to_owned()),
                        );
                    },
                },
                None => {
                    return Err(
                        GbsError::InvalidRequest("Missing _id in delete action".to_owned()),
                    );
                },
            };
            let act = BulkAction::Delete { index: ixname, id };
            let ghost actv = act@;
            acts.push(act);
            proof {
                assert(actions_view(acts@) =~= before_acts.push(actv));
                if spec_parse_bulk(lv, dvv, i + 1) is Ok {
                    let rest = spec_parse_bulk(lv, dvv, i + 1)->Ok_0;
                    assert(actions_view(acts@) + rest =~= before_acts + (seq![actv] + rest));
                }
            }
            i += 1;
        }
    }
    proof {
        assert(spec_parse_bulk(lv, dvv, i as int) == Result::<Seq<BulkActionV>, GbsErrorV>::Ok(
            Seq::empty(),
        ));
        assert(actions_view(acts@) + Seq::<BulkActionV>::empty() =~= actions_view(acts@));
    }
    Ok(acts)
}

} // verus!
