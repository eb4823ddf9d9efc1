//! The commit engine: atomic multi-table commits. A transaction's changes
//! are resolved against the current rows, their requirements asserted, their
//! updates applied through the aggregate, and all rows rewritten together;
//! any failure leaves every table untouched.

use vstd::prelude::*;

use crate::catalog::{CatalogState, CatalogStateV, TableRecordV};
use crate::error::{CatalogResult, ErrorKind, ErrorModel};
use crate::ident::TableIdent;
use crate::metadata::{
    apply_updates, apply_updates_upto, lemma_apply_updates_upto_err, lemma_apply_updates_upto_fixed,
    remove_keys_seq, remove_keys_upto, TableMetadata, TableMetadataAggregate, TableMetadataV,
    TableRequirement, TableUpdate, TableUpdateV,
};
use crate::storage::{StorageProfile, StorageProfileV};
use crate::table::{find_namespace_by_id, find_table_by_id, find_warehouse, warehouse_is_active};

verus! {

/// The snapshot a commit of one table works from: the change itself and the
/// row's current metadata, location and storage, as loaded inside the write
/// transaction.
#[derive(Debug)]
pub struct CommitContext {
    pub requirements: Vec<TableRequirement>,
    pub updates: Vec<TableUpdate>,
    pub storage_profile: StorageProfile,
    pub storage_secret_ident: Option<u128>,
    pub namespace_id: u128,
    pub metadata: TableMetadata,
    pub metadata_location: Option<String>,
}

#[verifier::ext_equal]
pub struct CommitContextV {
    pub requirements: Seq<TableRequirement>,
    pub updates: Seq<TableUpdateV>,
    pub storage_profile: StorageProfileV,
    pub storage_secret_ident: Option<u128>,
    pub namespace_id: u128,
    pub metadata: TableMetadataV,
    pub metadata_location: Option<Seq<char>>,
}

impl View for CommitContext {
    type V = CommitContextV;

    open spec fn view(&self) -> CommitContextV {
        CommitContextV {
            requirements: self.requirements@,
            updates: self.updates.deep_view(),
            storage_profile: self.storage_profile@,
            storage_secret_ident: self.storage_secret_ident,
            namespace_id: self.namespace_id,
            metadata: self.metadata@,
            metadata_location: self.metadata_location.deep_view(),
        }
    }
}

impl DeepView for CommitContext {
    type V = CommitContextV;

    open spec fn deep_view(&self) -> CommitContextV {
        self.view()
    }
}

impl CommitContext {
    pub open spec fn wf(&self) -> bool {
        &&& self.metadata.wf()
        &&& forall|u: int| 0 <= u < self.updates@.len() ==> (#[trigger] self.updates@[u]).wf()
    }
}

/// One change of a commit transaction: the table it addresses, the
/// requirements that must hold of its current metadata, and the updates to
/// fold in.
#[derive(Debug)]
pub struct CommitTableRequest {
    pub identifier: Option<TableIdent>,
    pub requirements: Vec<TableRequirement>,
    pub updates: Vec<TableUpdate>,
}

impl CommitTableRequest {
    pub open spec fn wf(&self) -> bool {
        forall|u: int| 0 <= u < self.updates@.len() ==> (#[trigger] self.updates@[u]).wf()
    }
}

/// An atomic group of changes across one or more tables.
#[derive(Debug)]
pub struct CommitTransactionRequest {
    pub table_changes: Vec<CommitTableRequest>,
}

impl CommitTransactionRequest {
    pub open spec fn wf(&self) -> bool {
        forall|c: int| 0 <= c < self.table_changes@.len() ==> (#[trigger] self.table_changes@[
            c
        ]).wf()
    }
}

/// The identifier-to-UUID pairs the caller resolved beforehand; the first
/// pair bearing the identifier answers.
pub open spec fn lookup_ident_from(
    ids: Seq<(TableIdent, u128)>,
    ident: crate::ident::TableIdentV,
    k: int,
) -> Option<u128>
    decreases ids.len() - k,
{
    if k < 0 || k >= ids.len() {
        None
    } else if ids[k].0@ == ident {
        Some(ids[k].1)
    } else {
        lookup_ident_from(ids, ident, k + 1)
    }
}

pub open spec fn lookup_ident(ids: Seq<(TableIdent, u128)>, ident: crate::ident::TableIdentV)
    -> Option<u128> {
    lookup_ident_from(ids, ident, 0)
}

proof fn lemma_lookup_skip(ids: Seq<(TableIdent, u128)>, ident: crate::ident::TableIdentV, k: int)
    requires
        0 <= k <= ids.len(),
        forall|j: int| 0 <= j < k ==> (#[trigger] ids[j]).0@ != ident,
    ensures
        lookup_ident(ids, ident) == lookup_ident_from(ids, ident, k),
    decreases k,
{
    if k > 0 {
        lemma_lookup_skip(ids, ident, k - 1);
    }
}

/// What resolving one change against the current rows yields: the snapshot
/// the commit works from, or the error the change is refused with.
pub open spec fn build_context(
    s: CatalogStateV,
    change: CommitTableRequest,
    ids: Seq<(TableIdent, u128)>,
) -> Result<CommitContextV, ErrorKind> {
    match change.identifier {
        None => Err(ErrorKind::TableIdentifierRequired),
        Some(ident) => match lookup_ident(ids, ident@) {
            None => Err(ErrorKind::TableIdentifierNotFound),
            Some(tid) => if exists|i: int| s.table_by_id_matches(i, tid) {
                let i = choose|i: int| s.table_by_id_matches(i, tid);
                let wid = s.namespace_by_id(s.tables[i].namespace_id).warehouse_id;
                Ok(
                    CommitContextV {
                        requirements: change.requirements@,
                        updates: change.updates.deep_view(),
                        storage_profile: s.warehouse_by_id(wid).storage_profile,
                        storage_secret_ident: s.warehouse_by_id(wid).storage_secret_id,
                        namespace_id: s.tables[i].namespace_id,
                        metadata: s.tables[i].metadata,
                        metadata_location: s.tables[i].metadata_location,
                    },
                )
            } else {
                Err(ErrorKind::NoSuchTableError)
            },
        },
    }
}

/// The snapshots of the first `n` changes, or the first error among them.
pub open spec fn build_contexts_upto(
    s: CatalogStateV,
    changes: Seq<CommitTableRequest>,
    ids: Seq<(TableIdent, u128)>,
    n: int,
) -> Result<Seq<CommitContextV>, ErrorKind>
    decreases n,
{
    if n <= 0 {
        Ok(Seq::<CommitContextV>::empty())
    } else {
        match build_contexts_upto(s, changes, ids, n - 1) {
            Err(e) => Err(e),
            Ok(pre) => match build_context(s, changes[n - 1], ids) {
                Err(e) => Err(e),
                Ok(ctx) => Ok(pre.push(ctx)),
            },
        }
    }
}

pub open spec fn build_contexts(
    s: CatalogStateV,
    changes: Seq<CommitTableRequest>,
    ids: Seq<(TableIdent, u128)>,
) -> Result<Seq<CommitContextV>, ErrorKind> {
    build_contexts_upto(s, changes, ids, changes.len() as int)
}

proof fn lemma_contexts_err_sticks(
    s: CatalogStateV,
    changes: Seq<CommitTableRequest>,
    ids: Seq<(TableIdent, u128)>,
    n: int,
    n2: int,
)
    requires
        0 <= n <= n2,
        build_contexts_upto(s, changes, ids, n) is Err,
    ensures
        build_contexts_upto(s, changes, ids, n2) == build_contexts_upto(s, changes, ids, n),
    decreases n2 - n,
{
    if n2 > n {
        lemma_contexts_err_sticks(s, changes, ids, n, n2 - 1);
    }
}

/// Load the current snapshot of every change of the transaction: metadata,
/// metadata location, storage profile and secret handle, all gated on an
/// active warehouse.
pub fn get_commit_context(
    state: &CatalogState,
    request: CommitTransactionRequest,
    table_ids: &Vec<(TableIdent, u128)>,
) -> (r: CatalogResult<Vec<CommitContext>>)
    requires
        state.wf(),
        request.wf(),
    ensures
        match build_contexts(state@, request.table_changes@, table_ids@) {
            Err(kind) => r matches Err(e) && e.kind == kind,
            Ok(ctxs) => r matches Ok(v) && v@.len() == ctxs.len() && (forall|c: int|
                0 <= c < ctxs.len() ==> (#[trigger] v@[c])@ == ctxs[c] && v@[c].metadata.wf()
                    && v@[c].wf()),
        },
{
    let ghost sv = state@;
    let ghost req_g = request;
    let ghost changes_g = request.table_changes@;
    let ghost ids_g = table_ids@;
    let CommitTransactionRequest { table_changes } = request;
    let mut changes = table_changes;
    let n = changes.len();
    proof {
        assert(changes@ =~= changes_g.subrange(0, n as int));
    }
    let mut out: Vec<CommitContext> = Vec::new();
    let mut c: usize = 0;
    while changes.len() > 0
        invariant
            state.wf(),
            sv == state@,
            req_g == request,
            req_g.wf(),
            changes_g == req_g.table_changes@,
            ids_g == table_ids@,
            changes@.len() + c == n,
            n == changes_g.len(),
            changes@ == changes_g.subrange(c as int, n as int),
            build_contexts_upto(sv, changes_g, ids_g, c as int) matches Ok(ctxs) && out@.len()
                == ctxs.len() && (forall|k: int|
                0 <= k < ctxs.len() ==> (#[trigger] out@[k])@ == ctxs[k] && out@[k].metadata.wf()
                    && out@[k].wf()),
        decreases changes@.len(),
    {
        let change = changes.remove(0);
        let ghost change_v = change;
        proof {
            assert(change == changes_g[c as int]);
            assert(changes@ =~= changes_g.subrange(c as int + 1, n as int));
            assert(req_g.wf());
            assert(req_g.table_changes@[c as int].wf());
        }
        let ghost pre_ctxs = build_contexts_upto(sv, changes_g, ids_g, c as int)->Ok_0;
        let ctx = match build_one_context(state, change, table_ids) {
            Ok(ctx) => ctx,
            Err(e) => {
                proof {
                    assert(build_context(sv, change_v, ids_g) is Err);
                    assert(build_contexts_upto(sv, changes_g, ids_g, c as int + 1) is Err);
                    lemma_contexts_err_sticks(sv, changes_g, ids_g, c as int + 1, n as int);
                }
                return Err(e);
            },
        };
        let ghost pre_out = out@;
        out.push(ctx);
        proof {
            assert(build_contexts_upto(sv, changes_g, ids_g, c as int + 1)
                == Ok::<Seq<CommitContextV>, ErrorKind>(
                pre_ctxs.push(build_context(sv, changes_g[c as int], ids_g)->Ok_0),
            ));
            assert(forall|k: int| 0 <= k < pre_out.len() ==> out@[k] == #[trigger] pre_out[k]);
        }
        c = c + 1;
    }
    proof {
        assert(c == n);
        assert(changes_g.subrange(0, n as int) =~= changes_g);
    }
    Ok(out)
}

/// The UUID the caller resolved for this identifier, if it is in the list.
fn lookup_ident_exec(table_ids: &Vec<(TableIdent, u128)>, ident: &TableIdent) -> (r: Option<u128>)
    ensures
        r == lookup_ident(table_ids@, ident@),
{
    let m = table_ids.len();
    let mut k: usize = 0;
    while k < m
        invariant
            m == table_ids@.len(),
            k <= m,
            forall|j: int| 0 <= j < k ==> (#[trigger] table_ids@[j]).0@ != ident@,
        decreases m - k,
    {
        if table_ids[k].0 == *ident {
            proof {
                lemma_lookup_skip(table_ids@, ident@, k as int);
            }
            return Some(table_ids[k].1);
        }
        k = k + 1;
    }
    proof {
        lemma_lookup_skip(table_ids@, ident@, m as int);
    }
    None
}

/// Resolve one change: its identifier must be present, resolved by the
/// caller, and name a row under an active warehouse.
fn build_one_context(
    state: &CatalogState,
    change: CommitTableRequest,
    table_ids: &Vec<(TableIdent, u128)>,
) -> (r: CatalogResult<CommitContext>)
    requires
        state.wf(),
        change.wf(),
    ensures
        match build_context(state@, change, table_ids@) {
            Err(kind) => r matches Err(e) && e.kind == kind,
            Ok(ctx) => r matches Ok(v) && v@ == ctx && v.metadata.wf() && v.wf(),
        },
{
    let ghost sv = state@;
    let ghost change_g = change;
    let CommitTableRequest { identifier, requirements, updates } = change;
    let ident = match identifier {
        Some(ident) => ident,
        None => {
            return Err(
                ErrorModel::new(
                    ErrorKind::TableIdentifierRequired,
                    "Table identifier must be specified for all changes".to_owned(),
                ),
            );
        },
    };
    let found = lookup_ident_exec(table_ids, &ident);
    let tid = match found {
        Some(tid) => tid,
        None => {
            return Err(
                ErrorModel::new(
                    ErrorKind::TableIdentifierNotFound,
                    "Table identifier not found".to_owned(),
                ),
            );
        },
    };
    let no_such_table = || -> (e: ErrorModel)
        ensures
            e.kind == ErrorKind::NoSuchTableError,
        { ErrorModel::new(ErrorKind::NoSuchTableError, "Table not found".to_owned()) };
    let i = match find_table_by_id(state, tid) {
        Some(i) => i,
        None => {
            proof {
                if exists|i2: int| sv.table_by_id_matches(i2, tid) {
                    let i2 = choose|i2: int| sv.table_by_id_matches(i2, tid);
                    assert(false);
                }
            }
            return Err(no_such_table());
        },
    };
    let j = match find_namespace_by_id(state, state.tables[i].namespace_id) {
        Some(j) => j,
        None => {
            proof {
                assert(sv.has_namespace(sv.tables[i as int].namespace_id));
                let j2 = choose|j2: int|
                    0 <= j2 < sv.namespaces.len() && (#[trigger] sv.namespaces[j2]).namespace_id
                        == sv.tables[i as int].namespace_id;
                assert(false);
            }
            return Err(no_such_table());
        },
    };
    proof {
        assert(sv.namespaces[j as int].namespace_id == sv.tables[i as int].namespace_id);
    }
    let wid = state.namespaces[j].warehouse_id;
    proof {
        assert(sv.namespaces[j as int].warehouse_id == wid);
    }
    if !warehouse_is_active(state, wid) {
        proof {
            if exists|i2: int| sv.table_by_id_matches(i2, tid) {
                let i2 = choose|i2: int| sv.table_by_id_matches(i2, tid);
                crate::catalog::lemma_table_id_unique(sv, i as int, i2);
                let j2 = choose|j2: int|
                    0 <= j2 < sv.namespaces.len() && (#[trigger] sv.namespaces[j2]).namespace_id
                        == sv.tables[i2].namespace_id && sv.warehouse_active(
                        sv.namespaces[j2].warehouse_id,
                    );
                crate::catalog::lemma_namespace_id_unique(sv, j as int, j2);
            }
        }
        return Err(no_such_table());
    }
    let w = match find_warehouse(state, wid) {
        Some(w) => w,
        None => {
            proof {
                let w2 = choose|w2: int|
                    0 <= w2 < sv.warehouses.len() && (#[trigger] sv.warehouses[w2]).warehouse_id
                        == wid && sv.warehouses[w2].status
                        == crate::catalog::WarehouseStatus::Active;
                assert(false);
            }
            return Err(no_such_table());
        },
    };
    proof {
        assert(sv.table_by_id_matches(i as int, tid));
        let ic = choose|ic: int| sv.table_by_id_matches(ic, tid);
        crate::catalog::lemma_table_id_unique(sv, i as int, ic);
        let jc = choose|jc: int|
            0 <= jc < sv.namespaces.len() && (#[trigger] sv.namespaces[jc]).namespace_id
                == sv.tables[i as int].namespace_id;
        crate::catalog::lemma_namespace_id_unique(sv, j as int, jc);
        let wc = choose|wc: int|
            0 <= wc < sv.warehouses.len() && (#[trigger] sv.warehouses[wc]).warehouse_id == wid;
        crate::catalog::lemma_warehouse_id_unique(sv, w as int, wc);
    }
    let metadata_location = match &state.tables[i].metadata_location {
        Some(l) => Some(l.clone()),
        None => None,
    };
    let ctx = CommitContext {
        requirements,
        updates,
        storage_profile: state.warehouses[w].storage_profile.clone(),
        storage_secret_ident: state.warehouses[w].storage_secret_id,
        namespace_id: state.tables[i].namespace_id,
        metadata: state.tables[i].metadata.clone(),
        metadata_location,
    };
    proof {
        assert(ctx@.requirements =~= ctx.requirements@);
        assert(ctx@ =~~= build_context(sv, change_g, table_ids@)->Ok_0);
    }
    Ok(ctx)
}

/// Whether every requirement of a change holds against its snapshot.
pub open spec fn requirements_hold(ctx: CommitContextV) -> bool {
    forall|q: int|
        0 <= q < ctx.requirements.len() ==> (#[trigger] ctx.requirements[q]).holds(
            ctx.metadata,
            ctx.metadata_location is Some,
        )
}

/// Whether every requirement of every change holds.
pub open spec fn all_requirements_hold(ctxs: Seq<CommitContextV>) -> bool {
    forall|c: int| 0 <= c < ctxs.len() ==> requirements_hold(#[trigger] ctxs[c])
}

/// The new metadata documents of the first `n` changes, or the first
/// rejected update among them.
pub open spec fn apply_all_upto(ctxs: Seq<CommitContextV>, n: int) -> Result<
    Seq<TableMetadataV>,
    ErrorKind,
>
    decreases n,
{
    if n <= 0 {
        Ok(Seq::<TableMetadataV>::empty())
    } else {
        match apply_all_upto(ctxs, n - 1) {
            Err(e) => Err(e),
            Ok(pre) => match apply_updates(ctxs[n - 1].metadata, ctxs[n - 1].updates) {
                Err(e) => Err(e),
                Ok(m) => Ok(pre.push(m)),
            },
        }
    }
}

pub open spec fn apply_all(ctxs: Seq<CommitContextV>) -> Result<Seq<TableMetadataV>, ErrorKind> {
    apply_all_upto(ctxs, ctxs.len() as int)
}

proof fn lemma_apply_all_err_sticks(ctxs: Seq<CommitContextV>, n: int, n2: int)
    requires
        0 <= n <= n2,
        apply_all_upto(ctxs, n) is Err,
    ensures
        apply_all_upto(ctxs, n2) == apply_all_upto(ctxs, n),
    decreases n2 - n,
{
    if n2 > n {
        lemma_apply_all_err_sticks(ctxs, n, n2 - 1);
    }
}

/// Whether two changes target the same table: the bulk update would then
/// touch fewer rows than the transaction has changes.
pub open spec fn has_duplicate_targets(ctxs: Seq<CommitContextV>) -> bool {
    exists|c1: int, c2: int|
        0 <= c1 < c2 < ctxs.len() && (#[trigger] ctxs[c1]).metadata.table_uuid == (
        #[trigger] ctxs[c2]).metadata.table_uuid
}

/// The outcome of the whole commit protocol against a state: the loaded
/// snapshots and the new metadata documents, or the error the transaction is
/// refused with, in the order the steps run.
pub open spec fn commit_outcome(
    s: CatalogStateV,
    changes: Seq<CommitTableRequest>,
    ids: Seq<(TableIdent, u128)>,
) -> Result<(Seq<CommitContextV>, Seq<TableMetadataV>), ErrorKind> {
    match build_contexts(s, changes, ids) {
        Err(e) => Err(e),
        Ok(ctxs) => if ctxs.len() > crate::table::MAX_PARAMETERS as int / 4 {
            Err(ErrorKind::TooManyTablesForCommit)
        } else if !all_requirements_hold(ctxs) {
            Err(ErrorKind::RequirementFailed)
        } else {
            match apply_all(ctxs) {
                Err(e) => Err(e),
                Ok(metas) => if has_duplicate_targets(ctxs) {
                    Err(ErrorKind::CommitTableUpdateError)
                } else {
                    Ok((ctxs, metas))
                },
            }
        },
    }
}

/// The commit response of one table: its new metadata document and the
/// location of the new metadata file.
#[derive(Debug)]
pub struct CommitTableResponse {
    pub metadata_location: String,
    pub metadata: TableMetadata,
    pub config: Option<crate::properties::Properties>,
}

/// The storage a table's files live under, for the service layer to hand out.
#[derive(Debug)]
pub struct GetStorageConfigResult {
    pub storage_profile: StorageProfile,
    pub storage_secret_ident: Option<u128>,
}

/// The full per-table outcome of a commit: the response, the storage
/// configuration, and the previous metadata snapshot for delta computation.
#[derive(Debug)]
pub struct CommitTableResponseExt {
    pub commit_response: CommitTableResponse,
    pub storage_config: GetStorageConfigResult,
    pub previous_table_metadata: TableMetadata,
}

/// What a correct response for change `c` holds, given the snapshot, the new
/// document and the minted metadata-file id.
pub open spec fn response_matches(
    resp: CommitTableResponseExt,
    ctx: CommitContextV,
    meta: TableMetadataV,
    metadata_id: u128,
) -> bool {
    &&& resp.commit_response.metadata@ == meta
    &&& resp.commit_response.metadata.wf()
    &&& resp.commit_response.metadata_location@ == ctx.metadata.location + "/metadata/"@
        + crate::uuids::uuid_text(metadata_id) + ".metadata.json"@
    &&& resp.commit_response.config is None
    &&& resp.storage_config.storage_profile@ == ctx.storage_profile
    &&& resp.storage_config.storage_secret_ident == ctx.storage_secret_ident
    &&& resp.previous_table_metadata@ == ctx.metadata
    &&& resp.previous_table_metadata.wf()
}

/// Like `response_matches`, for some minted metadata-file id.
pub open spec fn response_matches_some_id(
    resp: CommitTableResponseExt,
    ctx: CommitContextV,
    meta: TableMetadataV,
) -> bool {
    exists|mid: u128| response_matches(resp, ctx, meta, mid)
}

/// Apply one change's updates to its snapshot, enforcing the UUID and
/// location guards, and name the new metadata file under the table root.
fn apply_one_commit(context: CommitContext, metadata_id: u128) -> (r: CatalogResult<
    CommitTableResponseExt,
>)
    requires
        context.wf(),
    ensures
        match apply_updates(context@.metadata, context@.updates) {
            Err(kind) => r matches Err(e) && e.kind == kind,
            Ok(meta) => r matches Ok(resp) && response_matches(resp, context@, meta, metadata_id),
        },
{
    let ghost ctx_v = context@;
    let CommitContext {
        requirements: _,
        updates,
        storage_profile,
        storage_secret_ident,
        namespace_id: _,
        metadata,
        metadata_location: _,
    } = context;
    let previous = metadata.clone();
    let previous_uuid = previous.uuid();
    let metadata_id_text = crate::uuids::uuid_to_string(metadata_id);
    let metadata_location = storage_profile.metadata_location(&previous.location, &metadata_id_text);
    let mut builder = TableMetadataAggregate::new_from_metadata(metadata);
    let ghost updates_g = updates@;
    let mut updates = updates;
    let n = updates.len();
    let mut u: usize = 0;
    while updates.len() > 0
        invariant
            ctx_v == context@,
            updates@.len() + u == n,
            n == updates_g.len(),
            updates@ == updates_g.subrange(u as int, n as int),
            forall|k: int| 0 <= k < n ==> (#[trigger] updates_g[k]).wf(),
            ctx_v.updates.len() == n,
            forall|k: int| 0 <= k < n ==> ctx_v.updates[k] == (#[trigger] updates_g[k])@,
            builder.wf(),
            previous.wf(),
            previous@ == ctx_v.metadata,
            previous_uuid == ctx_v.metadata.table_uuid,
            apply_updates_upto(ctx_v.metadata, ctx_v.updates, u as int) == Ok::<
                TableMetadataV,
                ErrorKind,
            >(builder.current()),
        decreases updates@.len(),
    {
        let update = updates.remove(0);
        proof {
            assert(update == updates_g[u as int]);
            assert(updates@ =~= updates_g.subrange(u as int + 1, n as int));
            assert(update@ == ctx_v.updates[u as int]);
            lemma_apply_updates_upto_fixed(ctx_v.metadata, ctx_v.updates, u as int);
        }
        match update {
            TableUpdate::AssignUuid { uuid } => {
                if !(uuid == previous_uuid) {
                    proof {
                        assert(apply_updates_upto(ctx_v.metadata, ctx_v.updates, u as int + 1)
                            is Err);
                        lemma_apply_updates_upto_err(
                            ctx_v.metadata,
                            ctx_v.updates,
                            u as int + 1,
                            n as int,
                        );
                    }
                    return Err(
                        ErrorModel::new(
                            ErrorKind::AssignUuidNotAllowed,
                            "Cannot assign a new UUID".to_owned(),
                        ),
                    );
                }
            },
            TableUpdate::SetLocation { location } => {
                if !(location == previous.location) {
                    proof {
                        assert(apply_updates_upto(ctx_v.metadata, ctx_v.updates, u as int + 1)
                            is Err);
                        lemma_apply_updates_upto_err(
                            ctx_v.metadata,
                            ctx_v.updates,
                            u as int + 1,
                            n as int,
                        );
                    }
                    return Err(
                        ErrorModel::new(
                            ErrorKind::SetLocationNotAllowed,
                            "Cannot change table location".to_owned(),
                        ),
                    );
                }
            },
            TableUpdate::SetProperties { updates: props } => {
                builder.set_properties(&props);
            },
            TableUpdate::RemoveProperties { removals } => {
                let ghost removals_g = removals.deep_view();
                let ghost base = builder.current();
                let m = removals.len();
                let mut k: usize = 0;
                while k < m
                    invariant
                        m == removals@.len(),
                        removals_g == removals.deep_view(),
                        k <= m,
                        builder.wf(),
                        builder.current() == (TableMetadataV {
                            properties: remove_keys_upto(base.properties, removals_g, k as int),
                            ..base
                        }),
                    decreases m - k,
                {
                    builder.remove_property(&removals[k]);
                    proof {
                        assert(removals@[k as int]@ == removals_g[k as int]);
                        assert(builder.current() =~~= (TableMetadataV {
                            properties: remove_keys_upto(
                                base.properties,
                                removals_g,
                                k as int + 1,
                            ),
                            ..base
                        }));
                    }
                    k = k + 1;
                }
                proof {
                    assert(builder.current() =~~= (TableMetadataV {
                        properties: remove_keys_seq(base.properties, removals_g),
                        ..base
                    }));
                }
            },
        }
        proof {
            assert(apply_updates_upto(ctx_v.metadata, ctx_v.updates, u as int + 1) == Ok::<
                TableMetadataV,
                ErrorKind,
            >(builder.current()));
        }
        u = u + 1;
    }
    let new_metadata = builder.build();
    Ok(
        CommitTableResponseExt {
            commit_response: CommitTableResponse {
                metadata_location,
                metadata: new_metadata,
                config: None,
            },
            storage_config: GetStorageConfigResult {
                storage_profile,
                storage_secret_ident,
            },
            previous_table_metadata: previous,
        },
    )
}

/// Apply every change's updates, each against its own snapshot, minting one
/// metadata-file id per change.
pub fn apply_commits(commits: Vec<CommitContext>, metadata_ids: &Vec<u128>) -> (r: CatalogResult<
    Vec<CommitTableResponseExt>,
>)
    requires
        commits@.len() == metadata_ids@.len(),
        forall|c: int| 0 <= c < commits@.len() ==> (#[trigger] commits@[c]).wf(),
    ensures
        match apply_all(commits.deep_view()) {
            Err(kind) => r matches Err(e) && e.kind == kind,
            Ok(metas) => r matches Ok(v) && v@.len() == commits.deep_view().len() && (forall|c: int|
                0 <= c < v@.len() ==> response_matches(
                    #[trigger] v@[c],
                    commits.deep_view()[c],
                    metas[c],
                    metadata_ids@[c],
                )),
        },
{
    let ghost ctxs = commits.deep_view();
    let ghost commits_g = commits@;
    let mut remaining = commits;
    let n = remaining.len();
    proof {
        assert(remaining@ =~= commits_g.subrange(0, n as int));
    }
    let mut out: Vec<CommitTableResponseExt> = Vec::new();
    let mut c: usize = 0;
    while remaining.len() > 0
        invariant
            ctxs == commits.deep_view(),
            remaining@.len() + c == n,
            n == commits_g.len(),
            n == ctxs.len(),
            n == metadata_ids@.len(),
            remaining@ == commits_g.subrange(c as int, n as int),
            forall|k: int| 0 <= k < n ==> (#[trigger] commits_g[k]).wf(),
            forall|k: int| 0 <= k < n ==> ctxs[k] == (#[trigger] commits_g[k])@,
            out@.len() == c,
            apply_all_upto(ctxs, c as int) matches Ok(metas) && metas.len() == c && (forall|k: int|
                0 <= k < c ==> response_matches(
                    #[trigger] out@[k],
                    ctxs[k],
                    metas[k],
                    metadata_ids@[k],
                )),
        decreases remaining@.len(),
    {
        let context = remaining.remove(0);
        proof {
            assert(context == commits_g[c as int]);
            assert(remaining@ =~= commits_g.subrange(c as int + 1, n as int));
        }
        let ghost pre_metas = apply_all_upto(ctxs, c as int)->Ok_0;
        let resp = match apply_one_commit(context, metadata_ids[c]) {
            Ok(resp) => resp,
            Err(e) => {
                proof {
                    assert(apply_all_upto(ctxs, c as int + 1) is Err);
                    lemma_apply_all_err_sticks(ctxs, c as int + 1, n as int);
                }
                return Err(e);
            },
        };
        let ghost pre_out = out@;
        out.push(resp);
        proof {
            assert(apply_all_upto(ctxs, c as int + 1) == Ok::<Seq<TableMetadataV>, ErrorKind>(
                pre_metas.push(apply_updates(ctxs[c as int].metadata, ctxs[c as int].updates)->Ok_0),
            ));
            assert(forall|k: int| 0 <= k < pre_out.len() ==> out@[k] == #[trigger] pre_out[k]);
        }
        c = c + 1;
    }
    Ok(out)
}

/// Each snapshot of a successful context build is what `build_context` gives
/// for its own change.
pub(crate) proof fn lemma_build_contexts_index(
    s: CatalogStateV,
    changes: Seq<CommitTableRequest>,
    ids: Seq<(TableIdent, u128)>,
    n: int,
    c: int,
)
    requires
        0 <= c < n,
        build_contexts_upto(s, changes, ids, n) is Ok,
    ensures
        build_context(s, changes[c], ids) is Ok,
        build_contexts_upto(s, changes, ids, n)->Ok_0.len() == n,
        build_contexts_upto(s, changes, ids, n)->Ok_0[c] == build_context(s, changes[c], ids)->Ok_0,
    decreases n,
{
    if c < n - 1 {
        lemma_build_contexts_index(s, changes, ids, n - 1, c);
    } else {
        lemma_build_contexts_len(s, changes, ids, n - 1);
    }
}

pub(crate) proof fn lemma_build_contexts_len(
    s: CatalogStateV,
    changes: Seq<CommitTableRequest>,
    ids: Seq<(TableIdent, u128)>,
    n: int,
)
    requires
        0 <= n,
        build_contexts_upto(s, changes, ids, n) is Ok,
    ensures
        build_contexts_upto(s, changes, ids, n)->Ok_0.len() == n,
    decreases n,
{
    if n > 0 {
        lemma_build_contexts_len(s, changes, ids, n - 1);
    }
}

/// A successfully built context snapshots an existing row: some row bears
/// the snapshot's UUID as its id and the snapshot as its metadata.
pub(crate) proof fn lemma_context_row(
    s: CatalogStateV,
    change: CommitTableRequest,
    ids: Seq<(TableIdent, u128)>,
)
    requires
        s.inv(),
        build_context(s, change, ids) is Ok,
    ensures
        exists|i: int|
            {
                &&& 0 <= i < s.tables.len()
                &&& (#[trigger] s.tables[i]).table_id == build_context(
                    s,
                    change,
                    ids,
                )->Ok_0.metadata.table_uuid
                &&& s.tables[i].metadata == build_context(s, change, ids)->Ok_0.metadata
            },
{
    let ctx = build_context(s, change, ids)->Ok_0;
    let ident = change.identifier->Some_0;
    let tid = lookup_ident(ids, ident@)->Some_0;
    let i = choose|i: int| s.table_by_id_matches(i, tid);
    assert(s.table_by_id_matches(i, tid));
    assert(s.tables[i].metadata == ctx.metadata);
    assert(s.tables[i].metadata.table_uuid == s.tables[i].table_id);
    assert({
        &&& 0 <= i < s.tables.len()
        &&& s.tables[i].table_id == ctx.metadata.table_uuid
        &&& s.tables[i].metadata == ctx.metadata
    });
}

/// Each document of a successful apply is what `apply_updates` gives for its
/// own snapshot.
pub(crate) proof fn lemma_apply_all_index(ctxs: Seq<CommitContextV>, n: int, c: int)
    requires
        0 <= c < n,
        apply_all_upto(ctxs, n) is Ok,
    ensures
        apply_updates(ctxs[c].metadata, ctxs[c].updates) is Ok,
        apply_all_upto(ctxs, n)->Ok_0.len() == n,
        apply_all_upto(ctxs, n)->Ok_0[c] == apply_updates(ctxs[c].metadata, ctxs[c].updates)->Ok_0,
    decreases n,
{
    if c < n - 1 {
        lemma_apply_all_index(ctxs, n - 1, c);
    } else {
        lemma_apply_all_len(ctxs, n - 1);
    }
}

pub(crate) proof fn lemma_apply_all_len(ctxs: Seq<CommitContextV>, n: int)
    requires
        0 <= n,
        apply_all_upto(ctxs, n) is Ok,
    ensures
        apply_all_upto(ctxs, n)->Ok_0.len() == n,
    decreases n,
{
    if n > 0 {
        lemma_apply_all_len(ctxs, n - 1);
    }
}

/// Two changes of a duplicate-free transaction cannot target one table.
pub(crate) proof fn lemma_target_unique(ctxs: Seq<CommitContextV>, c1: int, c2: int)
    requires
        !has_duplicate_targets(ctxs),
        0 <= c1 < ctxs.len(),
        0 <= c2 < ctxs.len(),
        ctxs[c1].metadata.table_uuid == ctxs[c2].metadata.table_uuid,
    ensures
        c1 == c2,
{
    if c1 < c2 {
        assert(has_duplicate_targets(ctxs));
    } else if c2 < c1 {
        assert(has_duplicate_targets(ctxs));
    }
}

/// A row rewritten with a consistent new metadata document, everything else
/// kept, preserves the invariants.
proof fn lemma_update_metadata_wf(pre: CatalogStateV, post: CatalogStateV, i: int, row: TableRecordV)
    requires
        pre.inv(),
        0 <= i < pre.tables.len(),
        row.table_id == pre.tables[i].table_id,
        row.namespace_id == pre.tables[i].namespace_id,
        row.table_name == pre.tables[i].table_name,
        row.table_location == pre.tables[i].table_location,
        row.metadata.table_uuid == row.table_id,
        row.metadata.location == row.table_location,
        post.tables == pre.tables.update(i, row),
        post.warehouses == pre.warehouses,
        post.namespaces == pre.namespaces,
    ensures
        post.inv(),
{
    assert forall|a: int, b: int| 0 <= a < b < post.tables.len() implies #[trigger] post.tables[
        a
    ].table_id != #[trigger] post.tables[b].table_id && !(post.tables[a].namespace_id
        == post.tables[b].namespace_id && post.tables[a].table_name == post.tables[b].table_name) by {
        assert(pre.tables[a].table_id != pre.tables[b].table_id);
    }
    assert forall|k: int| 0 <= k < post.tables.len() implies post.has_namespace(
        (#[trigger] post.tables[k]).namespace_id,
    ) by {
        if k != i {
            assert(pre.has_namespace(pre.tables[k].namespace_id));
        } else {
            assert(pre.has_namespace(pre.tables[i].namespace_id));
        }
        assert(post.has_namespace(post.tables[k].namespace_id) == pre.has_namespace(
            post.tables[k].namespace_id,
        ));
    }
}

/// How a successful commit rewrites the table rows: every targeted row
/// carries its change's new document and metadata-file location, every other
/// row is untouched.
pub open spec fn committed_rows(
    pre: CatalogStateV,
    post: CatalogStateV,
    ctxs: Seq<CommitContextV>,
    metas: Seq<TableMetadataV>,
    locs: Seq<Seq<char>>,
) -> bool {
    &&& post.tables.len() == pre.tables.len()
    &&& forall|i: int|
        0 <= i < pre.tables.len() ==> {
            if exists|c: int|
                0 <= c < ctxs.len() && (#[trigger] ctxs[c]).metadata.table_uuid == pre.tables[
                    i
                ].table_id {
                let c = choose|c: int|
                    0 <= c < ctxs.len() && (#[trigger] ctxs[c]).metadata.table_uuid == pre.tables[
                        i
                    ].table_id;
                #[trigger] post.tables[i] == (TableRecordV {
                    metadata: metas[c],
                    metadata_location: Some(locs[c]),
                    ..pre.tables[i]
                })
            } else {
                post.tables[i] == pre.tables[i]
            }
        }
}

/// The metadata-file locations a response vector names.
pub open spec fn response_locations(v: Seq<CommitTableResponseExt>) -> Seq<Seq<char>> {
    Seq::new(v.len(), |c: int| v[c].commit_response.metadata_location@)
}

/// Execute an atomic multi-table commit: load every referenced row's current
/// snapshot, assert all requirements, apply all updates, and rewrite every
/// targeted row. Any failure leaves every table exactly as it was.
///
/// The warehouse id plays no part: table ids are unique across warehouses,
/// so the rows are addressed by id alone, and the contract depends only on
/// the state, the changes and the caller's resolution map. A caller that
/// wants per-warehouse gating resolves the map with `table_idents_to_ids`
/// against that warehouse, which answers only for its own tables.
#[verifier::rlimit(100)]
#[verifier::loop_isolation(false)]
pub fn commit_table_transaction(
    state: &mut CatalogState,
    _warehouse_id: u128,
    request: CommitTransactionRequest,
    table_ids: &Vec<(TableIdent, u128)>,
) -> (r: CatalogResult<Vec<CommitTableResponseExt>>)
    requires
        old(state).wf(),
        request.wf(),
    ensures
        final(state).wf(),
        final(state)@.warehouses == old(state)@.warehouses,
        final(state)@.namespaces == old(state)@.namespaces,
        r is Err ==> final(state)@ == old(state)@,
        match commit_outcome(old(state)@, request.table_changes@, table_ids@) {
            Err(kind) => r matches Err(e) && e.kind == kind,
            Ok(pair) => r matches Ok(v) && {
                &&& v@.len() == pair.0.len()
                &&& forall|c: int|
                    0 <= c < v@.len() ==> response_matches_some_id(
                        #[trigger] v@[c],
                        pair.0[c],
                        pair.1[c],
                    )
                &&& committed_rows(old(state)@, final(state)@, pair.0, pair.1, response_locations(v@))
            },
        },
{
    let ghost pre = state@;
    let ghost changes_g = request.table_changes@;
    let ghost ids_g = table_ids@;
    let contexts = match get_commit_context(state, request, table_ids) {
        Ok(contexts) => contexts,
        Err(e) => {
            return Err(e);
        },
    };
    let ghost ctxs = build_contexts(pre, changes_g, ids_g)->Ok_0;
    proof {
        lemma_build_contexts_len(pre, changes_g, ids_g, changes_g.len() as int);
    }

    if contexts.len() > crate::table::MAX_PARAMETERS / 4 {
        return Err(
            ErrorModel::new(
                ErrorKind::TooManyTablesForCommit,
                "Too many tables in a single commit".to_owned(),
            ),
        );
    }

    // Check all requirements.
    let n = contexts.len();
    let mut c: usize = 0;
    while c < n
        invariant
            n == contexts@.len(),
            n == ctxs.len(),
            c <= n,
            forall|k: int| 0 <= k < n ==> (#[trigger] contexts@[k])@ == ctxs[k],
            forall|c2: int| 0 <= c2 < c ==> requirements_hold(#[trigger] ctxs[c2]),
        decreases n - c,
    {
        let m = contexts[c].requirements.len();
        let mut q: usize = 0;
        while q < m
            invariant
                n == contexts@.len(),
                n == ctxs.len(),
                c < n,
                m == contexts@[c as int].requirements@.len(),
                q <= m,
                forall|k: int| 0 <= k < n ==> (#[trigger] contexts@[k])@ == ctxs[k],
                forall|c2: int| 0 <= c2 < c ==> requirements_hold(#[trigger] ctxs[c2]),
                forall|q2: int|
                    0 <= q2 < q ==> (#[trigger] ctxs[c as int].requirements[q2]).holds(
                        ctxs[c as int].metadata,
                        ctxs[c as int].metadata_location is Some,
                    ),
            decreases m - q,
        {
            let req = contexts[c].requirements[q];
            let table_exists = contexts[c].metadata_location.is_some();
            proof {
                assert(contexts@[c as int]@ == ctxs[c as int]);
                assert(req == ctxs[c as int].requirements[q as int]);
                assert(contexts@[c as int].metadata@ == ctxs[c as int].metadata);
                assert(table_exists == (ctxs[c as int].metadata_location is Some));
            }
            match req.assert_requirement(&contexts[c].metadata, table_exists) {
                Ok(()) => {},
                Err(e) => {
                    proof {
                        assert(!requirements_hold(ctxs[c as int]));
                        assert(!all_requirements_hold(ctxs));
                    }
                    return Err(e);
                },
            }
            q = q + 1;
        }
        proof {
            assert(requirements_hold(ctxs[c as int]));
        }
        c = c + 1;
    }
    proof {
        assert(all_requirements_hold(ctxs));
    }

    // Mint one metadata-file id per change.
    let mut metadata_ids: Vec<u128> = Vec::new();
    let mut c2: usize = 0;
    while c2 < n
        invariant
            metadata_ids@.len() == c2,
            c2 <= n,
        decreases n - c2,
    {
        metadata_ids.push(crate::uuids::mint_uuid_v7());
        c2 = c2 + 1;
    }

    // Apply the updates of every change to its snapshot.
    proof {
        assert(contexts.deep_view() =~= ctxs);
    }
    let responses = match apply_commits(contexts, &metadata_ids) {
        Ok(responses) => responses,
        Err(e) => {
            return Err(e);
        },
    };
    let ghost metas = apply_all(ctxs)->Ok_0;
    proof {
        lemma_apply_all_len(ctxs, n as int);
    }

    // Refuse a transaction that names one table twice: the bulk row update
    // would touch fewer rows than the transaction has changes.
    let mut d1: usize = 0;
    while d1 < n
        invariant
            n == responses@.len(),
            n == ctxs.len(),
            d1 <= n,
            apply_all(ctxs) matches Ok(ms) && ms == metas,
            forall|k: int|
                0 <= k < n ==> response_matches(
                    #[trigger] responses@[k],
                    ctxs[k],
                    metas[k],
                    metadata_ids@[k],
                ),
            n == metadata_ids@.len(),
            forall|a: int, b: int|
                0 <= a < b < n && b < d1 ==> (#[trigger] ctxs[a]).metadata.table_uuid != (
                #[trigger] ctxs[b]).metadata.table_uuid,
        decreases n - d1,
    {
        let mut d0: usize = 0;
        while d0 < d1
            invariant
                n == responses@.len(),
                n == ctxs.len(),
                d0 <= d1 < n,
                apply_all(ctxs) matches Ok(ms) && ms == metas,
                forall|k: int|
                    0 <= k < n ==> response_matches(
                        #[trigger] responses@[k],
                        ctxs[k],
                        metas[k],
                        metadata_ids@[k],
                    ),
                n == metadata_ids@.len(),
                forall|a: int, b: int|
                    0 <= a < b < n && b < d1 ==> (#[trigger] ctxs[a]).metadata.table_uuid != (
                    #[trigger] ctxs[b]).metadata.table_uuid,
                forall|a: int|
                    0 <= a < d0 ==> (#[trigger] ctxs[a]).metadata.table_uuid != ctxs[
                        d1 as int
                    ].metadata.table_uuid,
            decreases d1 - d0,
    {
            let ua = responses[d0].commit_response.metadata.uuid();
            let ub = responses[d1].commit_response.metadata.uuid();
            proof {
                lemma_apply_all_index(ctxs, n as int, d0 as int);
                lemma_apply_all_index(ctxs, n as int, d1 as int);
                lemma_apply_updates_upto_fixed(
                    ctxs[d0 as int].metadata,
                    ctxs[d0 as int].updates,
                    ctxs[d0 as int].updates.len() as int,
                );
                lemma_apply_updates_upto_fixed(
                    ctxs[d1 as int].metadata,
                    ctxs[d1 as int].updates,
                    ctxs[d1 as int].updates.len() as int,
                );
                assert(ua == ctxs[d0 as int].metadata.table_uuid);
                assert(ub == ctxs[d1 as int].metadata.table_uuid);
            }
            if ua == ub {
                proof {
                    assert(has_duplicate_targets(ctxs));
                }
                return Err(
                    ErrorModel::new(
                        ErrorKind::CommitTableUpdateError,
                        "Error committing table updates".to_owned(),
                    ),
                );
            }
            d0 = d0 + 1;
        }
        d1 = d1 + 1;
    }
    proof {
        assert forall|a: int, b: int| 0 <= a < b < n implies (#[trigger] ctxs[a]).metadata.table_uuid
            != (#[trigger] ctxs[b]).metadata.table_uuid by {}
        assert(!has_duplicate_targets(ctxs));
    }

    // Persist: rewrite every targeted row with its new document and pointer.
    let mut p: usize = 0;
    while p < n
        invariant
            state.wf(),
            pre.inv(),
            n == responses@.len(),
            n == ctxs.len(),
            n == metadata_ids@.len(),
            p <= n,
            apply_all(ctxs) matches Ok(ms) && ms == metas,
            build_contexts(pre, changes_g, ids_g) matches Ok(cs) && cs == ctxs,
            metas.len() == n,
            !has_duplicate_targets(ctxs),
            forall|k: int|
                0 <= k < n ==> response_matches(
                    #[trigger] responses@[k],
                    ctxs[k],
                    metas[k],
                    metadata_ids@[k],
                ),
            state@.warehouses == pre.warehouses,
            state@.namespaces == pre.namespaces,
            state@.tables.len() == pre.tables.len(),
            forall|i: int|
                0 <= i < pre.tables.len() ==> {
                    if exists|c3: int|
                        0 <= c3 < p && (#[trigger] ctxs[c3]).metadata.table_uuid == pre.tables[
                            i
                        ].table_id {
                        let c3 = choose|c3: int|
                            0 <= c3 < p && (#[trigger] ctxs[c3]).metadata.table_uuid == pre.tables[
                                i
                            ].table_id;
                        #[trigger] state@.tables[i] == (TableRecordV {
                            metadata: metas[c3],
                            metadata_location: Some(
                                responses@[c3].commit_response.metadata_location@,
                            ),
                            ..pre.tables[i]
                        })
                    } else {
                        state@.tables[i] == pre.tables[i]
                    }
                },
        decreases n - p,
    {
        let ghost mid = state@;
        let uuid = responses[p].commit_response.metadata.uuid();
        proof {
            lemma_apply_all_index(ctxs, n as int, p as int);
            lemma_apply_updates_upto_fixed(
                ctxs[p as int].metadata,
                ctxs[p as int].updates,
                ctxs[p as int].updates.len() as int,
            );
            assert(uuid == ctxs[p as int].metadata.table_uuid);
            assert(metas[p as int].table_uuid == ctxs[p as int].metadata.table_uuid);
            assert(metas[p as int].location == ctxs[p as int].metadata.location);
            // The targeted row exists in the pre state.
            lemma_build_contexts_index(pre, changes_g, ids_g, n as int, p as int);
            lemma_context_row(pre, changes_g[p as int], ids_g);
            let i0 = choose|i0: int|
                {
                    &&& 0 <= i0 < pre.tables.len()
                    &&& (#[trigger] pre.tables[i0]).table_id == build_context(
                        pre,
                        changes_g[p as int],
                        ids_g,
                    )->Ok_0.metadata.table_uuid
                    &&& pre.tables[i0].metadata == build_context(
                        pre,
                        changes_g[p as int],
                        ids_g,
                    )->Ok_0.metadata
                };
            assert(pre.tables[i0].table_id == uuid);
        }
        let i = match find_table_by_id(state, uuid) {
            Some(i) => i,
            None => {
                proof {
                    let i0 = choose|i0: int|
                        0 <= i0 < pre.tables.len() && (#[trigger] pre.tables[i0]).table_id == uuid;
                    // Row i0 still bears its id in the current state.
                    if exists|c3: int|
                        0 <= c3 < p && (#[trigger] ctxs[c3]).metadata.table_uuid == pre.tables[
                            i0
                        ].table_id {
                        assert(state@.tables[i0].table_id == uuid);
                    } else {
                        assert(state@.tables[i0].table_id == uuid);
                    }
                    assert(false);
                }
                return Err(
                    ErrorModel::new(
                        ErrorKind::CommitTableUpdateError,
                        "Error committing table updates".to_owned(),
                    ),
                );
            },
        };
        proof {
            // The row has not been rewritten by an earlier change.
            if exists|c3: int|
                0 <= c3 < p && (#[trigger] ctxs[c3]).metadata.table_uuid == pre.tables[
                    i as int
                ].table_id {
                let c3 = choose|c3: int|
                    0 <= c3 < p && (#[trigger] ctxs[c3]).metadata.table_uuid == pre.tables[
                        i as int
                    ].table_id;
                assert(state@.tables[i as int].table_id == pre.tables[i as int].table_id);
                lemma_target_unique(ctxs, c3, p as int);
                assert(false);
            }
            assert(state@.tables[i as int] == pre.tables[i as int]);
            assert(pre.tables[i as int].table_id == uuid);
        }
        let mut row = state.tables[i].clone();
        row.metadata = responses[p].commit_response.metadata.clone();
        row.metadata_location = Some(responses[p].commit_response.metadata_location.clone());
        let ghost row_v = row@;
        state.tables.set(i, row);
        proof {
            assert(state@.tables =~= mid.tables.update(i as int, row_v));
            assert(row_v.metadata == metas[p as int]);
            assert(row_v.table_id == pre.tables[i as int].table_id);
            assert(row_v.metadata.table_uuid == row_v.table_id);
            assert(row_v.metadata.location == row_v.table_location);
            lemma_update_metadata_wf(mid, state@, i as int, row_v);
            assert forall|i2: int| 0 <= i2 < pre.tables.len() implies {
                if exists|c3: int|
                    0 <= c3 < p + 1 && (#[trigger] ctxs[c3]).metadata.table_uuid == pre.tables[
                        i2
                    ].table_id {
                    let c3 = choose|c3: int|
                        0 <= c3 < p + 1 && (#[trigger] ctxs[c3]).metadata.table_uuid == pre.tables[
                            i2
                        ].table_id;
                    #[trigger] state@.tables[i2] == (TableRecordV {
                        metadata: metas[c3],
                        metadata_location: Some(responses@[c3].commit_response.metadata_location@),
                        ..pre.tables[i2]
                    })
                } else {
                    state@.tables[i2] == pre.tables[i2]
                }
            } by {
                if exists|c3: int|
                    0 <= c3 < p + 1 && (#[trigger] ctxs[c3]).metadata.table_uuid == pre.tables[
                        i2
                    ].table_id {
                    let c3 = choose|c3: int|
                        0 <= c3 < p + 1 && (#[trigger] ctxs[c3]).metadata.table_uuid == pre.tables[
                            i2
                        ].table_id;
                    if i2 == i as int {
                        lemma_target_unique(ctxs, c3, p as int);
                    } else {
                        assert(c3 != p as int ==> state@.tables[i2] == mid.tables[i2]);
                        if c3 == p as int {
                            crate::catalog::lemma_table_id_unique(pre, i2, i as int);
                        }
                    }
                } else {
                    assert(state@.tables[i2] == mid.tables[i2]);
                }
            }
        }
        p = p + 1;
    }
    proof {
        assert(commit_outcome(pre, changes_g, ids_g) == Ok::<
            (Seq<CommitContextV>, Seq<TableMetadataV>),
            ErrorKind,
        >((ctxs, metas)));
        assert(committed_rows(pre, state@, ctxs, metas, response_locations(responses@)));
        assert forall|c4: int|
            0 <= c4 < n implies response_matches_some_id(
            #[trigger] responses@[c4],
            ctxs[c4],
            metas[c4],
        ) by {
            assert(response_matches(responses@[c4], ctxs[c4], metas[c4], metadata_ids@[c4]));
        }
    }
    Ok(responses)
}

} // verus!
