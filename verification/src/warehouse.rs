//! The warehouse manager: create, list, look up, rename, activate,
//! deactivate and soft-delete warehouses within a project, and swap their
//! storage profiles and credential handles.

use vstd::prelude::*;

use crate::catalog::{CatalogState, Warehouse, WarehouseStatus, WarehouseV};
use crate::error::{CatalogResult, ErrorKind, ErrorModel};
use crate::storage::{StorageCredential, StorageProfile};
use crate::table::find_warehouse;
use crate::uuids::mint_uuid_v7;

verus! {

/// A request to create a warehouse in a project.
#[derive(Debug)]
pub struct CreateWarehouseRequest {
    /// Name of the warehouse to create. Must be unique within a project.
    pub warehouse_name: String,
    /// Project ID in which to create the warehouse.
    pub project_id: u128,
    /// Storage profile to use for the warehouse.
    pub storage_profile: StorageProfile,
    /// Optional storage credential to use for the warehouse.
    pub storage_credential: Option<StorageCredential>,
}

/// The id of a freshly created warehouse.
#[derive(Debug)]
pub struct CreateWarehouseResponse {
    pub warehouse_id: u128,
}

/// A request to replace a warehouse's storage profile. The existing
/// credential is not re-used: the caller resupplies one or none.
#[derive(Debug)]
pub struct UpdateWarehouseStorageRequest {
    pub storage_profile: Option<StorageProfile>,
    pub storage_credential: Option<StorageCredential>,
}

/// A request to list the warehouses of a project.
#[derive(Debug)]
pub struct ListWarehouseRequest {
    /// Optional filter to include inactive warehouses.
    pub include_inactive: Option<bool>,
}

/// The ids of all projects that hold a warehouse.
#[derive(Debug)]
pub struct ListProjectResponse {
    pub project_ids: Vec<u128>,
}

/// One warehouse as reported to a client.
#[derive(Debug)]
pub struct WarehouseResponse {
    pub id: u128,
    pub name: String,
    pub project_id: u128,
    pub storage_profile: StorageProfile,
    pub status: String,
}

/// Whether a reported warehouse reproduces a warehouse row.
pub open spec fn warehouse_response_matches(resp: WarehouseResponse, w: WarehouseV) -> bool {
    &&& resp.id == w.warehouse_id
    &&& resp.name@ == w.warehouse_name
    &&& resp.project_id == w.project_id
    &&& resp.storage_profile@ == w.storage_profile
    &&& resp.status@ == (if w.status == WarehouseStatus::Active {
        "active"@
    } else {
        "inactive"@
    })
}

/// The warehouses of a project.
#[derive(Debug)]
pub struct ListWarehouseResponse {
    pub warehouses: Vec<WarehouseResponse>,
}

/// A request to replace a warehouse's credential; an absent credential means
/// the existing one is removed.
#[derive(Debug)]
pub struct UpdateWarehouseCredentialRequest {
    pub new_storage_credential: Option<StorageCredential>,
}

impl From<Warehouse> for WarehouseResponse {
    fn from(warehouse: Warehouse) -> (r: Self) {
        let status = if warehouse.status == WarehouseStatus::Active {
            "active".to_owned()
        } else {
            "inactive".to_owned()
        };
        WarehouseResponse {
            id: warehouse.warehouse_id,
            name: warehouse.warehouse_name,
            project_id: warehouse.project_id,
            storage_profile: warehouse.storage_profile,
            status,
        }
    }
}

impl vstd::std_specs::convert::FromSpecImpl<Warehouse> for WarehouseResponse {
    open spec fn obeys_from_spec() -> bool {
        false
    }

    open spec fn from_spec(warehouse: Warehouse) -> Self {
        arbitrary()
    }
}

/// Insert a warehouse row with an already-persisted secret handle and a
/// caller-assigned id. The row starts active.
#[verifier::loop_isolation(false)]
pub fn create_warehouse_profile(
    state: &mut CatalogState,
    warehouse_name: String,
    project_id: u128,
    storage_profile: StorageProfile,
    storage_secret_id: Option<u128>,
    warehouse_id: u128,
) -> (r: CatalogResult<u128>)
    requires
        old(state).wf(),
    ensures
        final(state).wf(),
        final(state)@.namespaces == old(state)@.namespaces,
        final(state)@.tables == old(state)@.tables,
        r is Err ==> final(state)@ == old(state)@,
        (exists|k: int|
            0 <= k < old(state)@.warehouses.len() && (#[trigger] old(state)@.warehouses[
                k
            ]).project_id == project_id && old(state)@.warehouses[k].warehouse_name
                == warehouse_name@) <==> (r matches Err(e) && e.kind
            == ErrorKind::WarehouseNameAlreadyExists),
        r matches Err(e) && e.kind == ErrorKind::WarehouseIdAlreadyExists ==> old(
            state,
        )@.has_warehouse(warehouse_id),
        r is Ok ==> !old(state)@.has_warehouse(warehouse_id),
        r matches Ok(id) ==> id == warehouse_id && final(state)@.warehouses == old(
            state,
        )@.warehouses.push(
            WarehouseV {
                warehouse_id,
                warehouse_name: warehouse_name@,
                project_id,
                storage_profile: storage_profile@,
                storage_secret_id,
                status: WarehouseStatus::Active,
            },
        ),
        r is Err ==> (r matches Err(e) && (e.kind == ErrorKind::WarehouseNameAlreadyExists || e.kind
            == ErrorKind::WarehouseIdAlreadyExists)),
{
    let ghost pre = state@;
    let n = state.warehouses.len();
    let mut k: usize = 0;
    while k < n
        invariant
            n == state.warehouses@.len(),
            k <= n,
            forall|j: int|
                0 <= j < k ==> !((#[trigger] pre.warehouses[j]).project_id == project_id
                    && pre.warehouses[j].warehouse_name == warehouse_name@),
        decreases n - k,
    {
        if state.warehouses[k].project_id == project_id && state.warehouses[k].warehouse_name
            == warehouse_name {
            proof {
                assert(pre.warehouses[k as int].project_id == project_id && pre.warehouses[
                    k as int
                ].warehouse_name == warehouse_name@);
            }
            return Err(
                ErrorModel::new(
                    ErrorKind::WarehouseNameAlreadyExists,
                    "A warehouse with this name already exists in the project".to_owned(),
                ),
            );
        }
        k = k + 1;
    }
    match find_warehouse(state, warehouse_id) {
        Some(_) => {
            return Err(
                ErrorModel::new(
                    ErrorKind::WarehouseIdAlreadyExists,
                    "A warehouse with this id already exists".to_owned(),
                ),
            );
        },
        None => {},
    }
    let row = Warehouse {
        warehouse_id,
        warehouse_name,
        project_id,
        storage_profile,
        storage_secret_id,
        status: WarehouseStatus::Active,
    };
    let ghost row_v = row@;
    state.warehouses.push(row);
    proof {
        assert(state@.warehouses =~= pre.warehouses.push(row_v));
        assert(state@.namespaces =~= pre.namespaces);
        assert(state@.tables =~= pre.tables);
        let m = pre.warehouses.len() as int;
        assert forall|a: int, b: int|
            0 <= a < b < state@.warehouses.len() implies #[trigger] state@.warehouses[
            a
        ].warehouse_id != #[trigger] state@.warehouses[b].warehouse_id && !(state@.warehouses[
            a
        ].project_id == state@.warehouses[b].project_id && state@.warehouses[a].warehouse_name
            == state@.warehouses[b].warehouse_name) by {
            if b < m {
                assert(pre.warehouses[a].warehouse_id != pre.warehouses[b].warehouse_id);
            } else {
                assert(pre.warehouses[a].warehouse_id != warehouse_id);
                assert(!(pre.warehouses[a].project_id == project_id && pre.warehouses[
                    a
                ].warehouse_name == warehouse_name@));
            }
        }
        assert forall|j: int|
            0 <= j < state@.namespaces.len() implies state@.has_warehouse(
            (#[trigger] state@.namespaces[j]).warehouse_id,
        ) by {
            assert(pre.has_warehouse(pre.namespaces[j].warehouse_id));
            let w0 = choose|w0: int|
                0 <= w0 < pre.warehouses.len() && (#[trigger] pre.warehouses[w0]).warehouse_id
                    == pre.namespaces[j].warehouse_id;
            assert(state@.warehouses[w0].warehouse_id == pre.namespaces[j].warehouse_id);
        }
    }
    Ok(warehouse_id)
}

/// Create a warehouse with a freshly minted id. The caller has already
/// validated the profile and persisted the credential, if any, and hands the
/// resulting secret handle in.
pub fn create_warehouse(
    state: &mut CatalogState,
    warehouse_name: String,
    project_id: u128,
    storage_profile: StorageProfile,
    storage_secret_id: Option<u128>,
) -> (r: CatalogResult<CreateWarehouseResponse>)
    requires
        old(state).wf(),
    ensures
        final(state).wf(),
        final(state)@.namespaces == old(state)@.namespaces,
        final(state)@.tables == old(state)@.tables,
        r is Err ==> final(state)@ == old(state)@,
        (exists|k: int|
            0 <= k < old(state)@.warehouses.len() && (#[trigger] old(state)@.warehouses[
                k
            ]).project_id == project_id && old(state)@.warehouses[k].warehouse_name
                == warehouse_name@) <==> (r matches Err(e) && e.kind
            == ErrorKind::WarehouseNameAlreadyExists),
        r matches Ok(resp) ==> final(state)@.warehouses == old(state)@.warehouses.push(
            WarehouseV {
                warehouse_id: resp.warehouse_id,
                warehouse_name: warehouse_name@,
                project_id,
                storage_profile: storage_profile@,
                storage_secret_id,
                status: WarehouseStatus::Active,
            },
        ),
        r matches Err(e) ==> e.kind == ErrorKind::WarehouseNameAlreadyExists || e.kind
            == ErrorKind::WarehouseIdAlreadyExists,
        // A fresh id can only collide with an existing row: on an empty
        // catalog of warehouses the insert always goes through once the name
        // is free.
        r matches Err(e) && e.kind == ErrorKind::WarehouseIdAlreadyExists ==> old(
            state,
        )@.warehouses.len() > 0,
{
    let warehouse_id = mint_uuid_v7();
    let r = create_warehouse_profile(
        state,
        warehouse_name,
        project_id,
        storage_profile,
        storage_secret_id,
        warehouse_id,
    );
    proof {
        if r matches Err(ref e) && e.kind == ErrorKind::WarehouseIdAlreadyExists {
            let w = choose|w: int|
                0 <= w < old(state)@.warehouses.len() && (#[trigger] old(state)@.warehouses[
                    w
                ]).warehouse_id == warehouse_id;
            assert(old(state)@.warehouses.len() > 0);
        }
    }
    let id = r?;
    Ok(CreateWarehouseResponse { warehouse_id: id })
}

/// The ids of all projects that hold at least one warehouse, each once.
#[verifier::loop_isolation(false)]
pub fn list_projects(state: &CatalogState) -> (r: ListProjectResponse)
    requires
        state.wf(),
    ensures
        forall|k: int|
            0 <= k < r.project_ids@.len() ==> state@.has_project(#[trigger] r.project_ids@[k]),
        forall|w: int|
            0 <= w < state@.warehouses.len() ==> r.project_ids@.contains(
                (#[trigger] state@.warehouses[w]).project_id,
            ),
        forall|k1: int, k2: int|
            0 <= k1 < k2 < r.project_ids@.len() ==> #[trigger] r.project_ids@[k1]
                != #[trigger] r.project_ids@[k2],
{
    let n = state.warehouses.len();
    let mut out: Vec<u128> = Vec::new();
    let mut w: usize = 0;
    while w < n
        invariant
            n == state.warehouses@.len(),
            w <= n,
            forall|k: int| 0 <= k < out@.len() ==> state@.has_project(#[trigger] out@[k]),
            forall|w2: int|
                0 <= w2 < w ==> out@.contains((#[trigger] state@.warehouses[w2]).project_id),
            forall|k1: int, k2: int|
                0 <= k1 < k2 < out@.len() ==> #[trigger] out@[k1] != #[trigger] out@[k2],
        decreases n - w,
    {
        let pid = state.warehouses[w].project_id;
        proof {
            assert(state@.warehouses[w as int].project_id == pid);
        }
        let mut seen = false;
        let m = out.len();
        let mut k: usize = 0;
        while k < m
            invariant
                m == out@.len(),
                k <= m,
                !seen ==> forall|k2: int| 0 <= k2 < k ==> #[trigger] out@[k2] != pid,
                seen ==> exists|k2: int| 0 <= k2 < m && #[trigger] out@[k2] == pid,
            decreases m - k,
        {
            if out[k] == pid {
                seen = true;
                k = m;
            } else {
                k = k + 1;
            }
        }
        if !seen {
            let ghost pre_out = out@;
            out.push(pid);
            proof {
                assert(forall|k2: int| 0 <= k2 < pre_out.len() ==> out@[k2] == #[trigger] pre_out[
                    k2
                ]);
                assert(out@[out@.len() - 1] == pid);
                assert(state@.has_project(pid));
                assert forall|w2: int|
                    0 <= w2 < w + 1 implies out@.contains(
                    (#[trigger] state@.warehouses[w2]).project_id,
                ) by {
                    if w2 < w as int {
                        let k0 = choose|k0: int|
                            0 <= k0 < pre_out.len() && pre_out[k0] == state@.warehouses[
                                w2
                            ].project_id;
                        assert(out@[k0] == state@.warehouses[w2].project_id);
                    } else {
                        assert(out@[out@.len() - 1] == state@.warehouses[w2].project_id);
                    }
                }
            }
        } else {
            proof {
                assert forall|w2: int|
                    0 <= w2 < w + 1 implies out@.contains(
                    (#[trigger] state@.warehouses[w2]).project_id,
                ) by {
                    if w2 == w as int {
                        let k2 = choose|k2: int| 0 <= k2 < m && #[trigger] out@[k2] == pid;
                        assert(out@[k2] == state@.warehouses[w2].project_id);
                    }
                }
            }
        }
        w = w + 1;
    }
    ListProjectResponse { project_ids: out }
}

/// The warehouses of a project, the inactive ones only on request.
#[verifier::loop_isolation(false)]
pub fn list_warehouses(state: &CatalogState, project_id: u128, include_inactive: bool) -> (r:
    ListWarehouseResponse)
    requires
        state.wf(),
    ensures
        forall|k: int|
            0 <= k < r.warehouses@.len() ==> {
                let w = state@.warehouse_by_id((#[trigger] r.warehouses@[k]).id);
                &&& state@.has_warehouse(r.warehouses@[k].id)
                &&& w.project_id == project_id
                &&& w.status == WarehouseStatus::Active || include_inactive
                &&& warehouse_response_matches(r.warehouses@[k], w)
            },
        forall|w: int|
            0 <= w < state@.warehouses.len() && (#[trigger] state@.warehouses[w]).project_id
                == project_id && (state@.warehouses[w].status == WarehouseStatus::Active
                || include_inactive) ==> exists|k: int|
                0 <= k < r.warehouses@.len() && (#[trigger] r.warehouses@[k]).id
                    == state@.warehouses[w].warehouse_id,
        forall|k1: int, k2: int|
            0 <= k1 < k2 < r.warehouses@.len() ==> (#[trigger] r.warehouses@[k1]).id != (
            #[trigger] r.warehouses@[k2]).id,
{
    let n = state.warehouses.len();
    let mut out: Vec<WarehouseResponse> = Vec::new();
    let ghost mut picked: Seq<int> = Seq::empty();
    let mut w: usize = 0;
    while w < n
        invariant
            state.wf(),
            n == state.warehouses@.len(),
            w <= n,
            out@.len() == picked.len(),
            forall|k: int|
                0 <= k < out@.len() ==> 0 <= #[trigger] picked[k] < w && state@.warehouses[picked[
                    k
                ]].project_id == project_id && (state@.warehouses[picked[k]].status
                    == WarehouseStatus::Active || include_inactive)
                    && warehouse_response_matches(out@[k], state@.warehouses[picked[k]])
                    && out@[k].id == state@.warehouses[picked[k]].warehouse_id,
            forall|w2: int|
                0 <= w2 < w && (#[trigger] state@.warehouses[w2]).project_id == project_id && (
                state@.warehouses[w2].status == WarehouseStatus::Active || include_inactive)
                    ==> exists|k: int|
                    0 <= k < out@.len() && (#[trigger] out@[k]).id == state@.warehouses[
                        w2
                    ].warehouse_id,
            forall|k1: int, k2: int| 0 <= k1 < k2 < out@.len() ==> picked[k1] != picked[k2],
        decreases n - w,
    {
        let is_match = state.warehouses[w].project_id == project_id && (state.warehouses[w].status
            == WarehouseStatus::Active || include_inactive);
        proof {
            assert(state@.warehouses[w as int] == state.warehouses@[w as int]@);
        }
        if is_match {
            let row = &state.warehouses[w];
            let status = if row.status == WarehouseStatus::Active {
                "active".to_owned()
            } else {
                "inactive".to_owned()
            };
            let resp = WarehouseResponse {
                id: row.warehouse_id,
                name: row.warehouse_name.clone(),
                project_id: row.project_id,
                storage_profile: row.storage_profile.clone(),
                status,
            };
            let ghost pre_out = out@;
            out.push(resp);
            proof {
                picked = picked.push(w as int);
                assert(forall|k: int| 0 <= k < pre_out.len() ==> out@[k] == #[trigger] pre_out[k]);
                assert(warehouse_response_matches(out@[out@.len() - 1], state@.warehouses[
                    w as int
                ]));
                assert forall|k1: int, k2: int|
                    0 <= k1 < k2 < out@.len() implies picked[k1] != picked[k2] by {}
            }
        }
        w = w + 1;
    }
    proof {
        assert forall|k1: int, k2: int|
            0 <= k1 < k2 < out@.len() implies (#[trigger] out@[k1]).id != (#[trigger] out@[
            k2
        ]).id by {
            if out@[k1].id == out@[k2].id {
                crate::catalog::lemma_warehouse_id_unique(state@, picked[k1], picked[k2]);
            }
        }
        assert forall|k: int|
            0 <= k < out@.len() implies {
            let wbi = state@.warehouse_by_id((#[trigger] out@[k]).id);
            &&& state@.has_warehouse(out@[k].id)
            &&& wbi.project_id == project_id
            &&& wbi.status == WarehouseStatus::Active || include_inactive
            &&& warehouse_response_matches(out@[k], wbi)
        } by {
            let w2 = picked[k];
            assert(state@.warehouses[w2].warehouse_id == out@[k].id);
            assert(state@.has_warehouse(out@[k].id));
            let wc = choose|wc: int|
                0 <= wc < state@.warehouses.len() && (#[trigger] state@.warehouses[wc]).warehouse_id
                    == out@[k].id;
            crate::catalog::lemma_warehouse_id_unique(state@, w2, wc);
            assert(state@.warehouse_by_id(out@[k].id) == state@.warehouses[w2]);
        }
    }
    ListWarehouseResponse { warehouses: out }
}

/// Look one warehouse up by id.
pub fn get_warehouse(state: &CatalogState, warehouse_id: u128) -> (r: CatalogResult<
    WarehouseResponse,
>)
    requires
        state.wf(),
    ensures
        r is Ok <==> state@.has_warehouse(warehouse_id),
        r matches Err(e) ==> e.kind == ErrorKind::WarehouseNotFound,
        r matches Ok(resp) ==> warehouse_response_matches(
            resp,
            state@.warehouse_by_id(warehouse_id),
        ),
{
    let w = match find_warehouse(state, warehouse_id) {
        Some(w) => w,
        None => {
            proof {
                if state@.has_warehouse(warehouse_id) {
                    let w2 = choose|w2: int|
                        0 <= w2 < state@.warehouses.len() && (#[trigger] state@.warehouses[
                            w2
                        ]).warehouse_id == warehouse_id;
                    assert(false);
                }
            }
            return Err(
                ErrorModel::new(ErrorKind::WarehouseNotFound, "Warehouse not found".to_owned()),
            );
        },
    };
    proof {
        assert(state@.has_warehouse(warehouse_id));
        let wc = choose|wc: int|
            0 <= wc < state@.warehouses.len() && (#[trigger] state@.warehouses[wc]).warehouse_id
                == warehouse_id;
        crate::catalog::lemma_warehouse_id_unique(state@, w as int, wc);
    }
    let row = &state.warehouses[w];
    let status = if row.status == WarehouseStatus::Active {
        "active".to_owned()
    } else {
        "inactive".to_owned()
    };
    Ok(
        WarehouseResponse {
            id: row.warehouse_id,
            name: row.warehouse_name.clone(),
            project_id: row.project_id,
            storage_profile: row.storage_profile.clone(),
            status,
        },
    )
}

/// Rewrite warehouse row `w`, the id kept, the rest as the caller built it.
fn set_warehouse_row(state: &mut CatalogState, w: usize, row: Warehouse)
    requires
        old(state).wf(),
        w < old(state).warehouses@.len(),
        row@.warehouse_id == old(state)@.warehouses[w as int].warehouse_id,
        !(exists|k: int|
            0 <= k < old(state)@.warehouses.len() && k != w && (#[trigger] old(state)@.warehouses[
                k
            ]).project_id == row@.project_id && old(state)@.warehouses[k].warehouse_name
                == row@.warehouse_name),
    ensures
        final(state).wf(),
        final(state)@.namespaces == old(state)@.namespaces,
        final(state)@.tables == old(state)@.tables,
        final(state)@.warehouses == old(state)@.warehouses.update(w as int, row@),
{
    let ghost pre = state@;
    let ghost row_v = row@;
    state.warehouses.set(w, row);
    proof {
        assert(state@.warehouses =~= pre.warehouses.update(w as int, row_v));
        assert(state@.namespaces =~= pre.namespaces);
        assert(state@.tables =~= pre.tables);
        assert forall|a: int, b: int|
            0 <= a < b < state@.warehouses.len() implies #[trigger] state@.warehouses[
            a
        ].warehouse_id != #[trigger] state@.warehouses[b].warehouse_id && !(state@.warehouses[
            a
        ].project_id == state@.warehouses[b].project_id && state@.warehouses[a].warehouse_name
            == state@.warehouses[b].warehouse_name) by {
            assert(pre.warehouses[a].warehouse_id != pre.warehouses[b].warehouse_id);
        }
        assert forall|j: int|
            0 <= j < state@.namespaces.len() implies state@.has_warehouse(
            (#[trigger] state@.namespaces[j]).warehouse_id,
        ) by {
            assert(pre.has_warehouse(pre.namespaces[j].warehouse_id));
            let w0 = choose|w0: int|
                0 <= w0 < pre.warehouses.len() && (#[trigger] pre.warehouses[w0]).warehouse_id
                    == pre.namespaces[j].warehouse_id;
            assert(state@.warehouses[w0].warehouse_id == pre.namespaces[j].warehouse_id);
        }
    }
}

/// Set a warehouse's status.
fn set_warehouse_status(state: &mut CatalogState, warehouse_id: u128, status: WarehouseStatus) -> (
    r: CatalogResult<()>)
    requires
        old(state).wf(),
    ensures
        final(state).wf(),
        final(state)@.namespaces == old(state)@.namespaces,
        final(state)@.tables == old(state)@.tables,
        r is Err ==> final(state)@ == old(state)@,
        r is Ok <==> old(state)@.has_warehouse(warehouse_id),
        r matches Err(e) ==> e.kind == ErrorKind::WarehouseNotFound,
        r is Ok ==> final(state)@.warehouses == old(state)@.warehouses.update(
            choose|w: int|
                0 <= w < old(state)@.warehouses.len() && (#[trigger] old(state)@.warehouses[
                    w
                ]).warehouse_id == warehouse_id,
            WarehouseV {
                status,
                ..old(state)@.warehouses[choose|w: int|
                    0 <= w < old(state)@.warehouses.len() && (#[trigger] old(state)@.warehouses[
                        w
                    ]).warehouse_id == warehouse_id]
            },
        ),
{
    let ghost pre = state@;
    let w = match find_warehouse(state, warehouse_id) {
        Some(w) => w,
        None => {
            proof {
                if pre.has_warehouse(warehouse_id) {
                    let w2 = choose|w2: int|
                        0 <= w2 < pre.warehouses.len() && (#[trigger] pre.warehouses[
                            w2
                        ]).warehouse_id == warehouse_id;
                    assert(false);
                }
            }
            return Err(
                ErrorModel::new(ErrorKind::WarehouseNotFound, "Warehouse not found".to_owned()),
            );
        },
    };
    let mut row = clone_warehouse(&state.warehouses[w]);
    row.status = status;
    let ghost row_v = row@;
    proof {
        assert(pre.has_warehouse(warehouse_id));
        let wc = choose|wc: int|
            0 <= wc < pre.warehouses.len() && (#[trigger] pre.warehouses[wc]).warehouse_id
                == warehouse_id;
        crate::catalog::lemma_warehouse_id_unique(pre, w as int, wc);
        assert forall|k: int|
            0 <= k < pre.warehouses.len() && k != w implies !((#[trigger] pre.warehouses[
            k
        ]).project_id == row_v.project_id && pre.warehouses[k].warehouse_name
            == row_v.warehouse_name) by {
            if k < w as int {
                assert(pre.warehouses[k].warehouse_id != pre.warehouses[w as int].warehouse_id);
            } else {
                assert(pre.warehouses[w as int].warehouse_id != pre.warehouses[k].warehouse_id);
            }
        }
    }
    set_warehouse_row(state, w, row);
    proof {
        assert(row_v =~~= (WarehouseV { status, ..pre.warehouses[w as int] }));
    }
    Ok(())
}

/// A value copy of a warehouse row.
fn clone_warehouse(row: &Warehouse) -> (r: Warehouse)
    ensures
        r@ == row@,
{
    Warehouse {
        warehouse_id: row.warehouse_id,
        warehouse_name: row.warehouse_name.clone(),
        project_id: row.project_id,
        storage_profile: row.storage_profile.clone(),
        storage_secret_id: row.storage_secret_id,
        status: row.status,
    }
}

/// Soft-delete a warehouse: its status moves to inactive, the row is never
/// removed, so its namespaces and tables simply stop being visible.
pub fn delete_warehouse(state: &mut CatalogState, warehouse_id: u128) -> (r: CatalogResult<()>)
    requires
        old(state).wf(),
    ensures
        final(state).wf(),
        final(state)@.namespaces == old(state)@.namespaces,
        final(state)@.tables == old(state)@.tables,
        r is Err ==> final(state)@ == old(state)@,
        r is Ok <==> old(state)@.has_warehouse(warehouse_id),
        r matches Err(e) ==> e.kind == ErrorKind::WarehouseNotFound,
        r is Ok ==> !final(state)@.warehouse_active(warehouse_id),
        // Exactly the addressed row changes, and only its status: the row is
        // never removed.
        r is Ok ==> final(state)@.warehouses == old(state)@.warehouses.update(
            choose|w: int|
                0 <= w < old(state)@.warehouses.len() && (#[trigger] old(state)@.warehouses[
                    w
                ]).warehouse_id == warehouse_id,
            WarehouseV {
                status: WarehouseStatus::Inactive,
                ..old(state)@.warehouses[choose|w: int|
                    0 <= w < old(state)@.warehouses.len() && (#[trigger] old(state)@.warehouses[
                        w
                    ]).warehouse_id == warehouse_id]
            },
        ),
{
    let r = set_warehouse_status(state, warehouse_id, WarehouseStatus::Inactive);
    proof {
        if r is Ok {
            lemma_status_set(old(state)@, state@, warehouse_id, WarehouseStatus::Inactive);
        }
    }
    r
}

/// Deactivate a warehouse: reads and writes under it are refused until it is
/// activated again.
pub fn deactivate_warehouse(state: &mut CatalogState, warehouse_id: u128) -> (r: CatalogResult<()>)
    requires
        old(state).wf(),
    ensures
        final(state).wf(),
        final(state)@.namespaces == old(state)@.namespaces,
        final(state)@.tables == old(state)@.tables,
        r is Err ==> final(state)@ == old(state)@,
        r is Ok <==> old(state)@.has_warehouse(warehouse_id),
        r matches Err(e) ==> e.kind == ErrorKind::WarehouseNotFound,
        r is Ok ==> !final(state)@.warehouse_active(warehouse_id),
        // Exactly the addressed row changes, and only its status: the row is
        // never removed.
        r is Ok ==> final(state)@.warehouses == old(state)@.warehouses.update(
            choose|w: int|
                0 <= w < old(state)@.warehouses.len() && (#[trigger] old(state)@.warehouses[
                    w
                ]).warehouse_id == warehouse_id,
            WarehouseV {
                status: WarehouseStatus::Inactive,
                ..old(state)@.warehouses[choose|w: int|
                    0 <= w < old(state)@.warehouses.len() && (#[trigger] old(state)@.warehouses[
                        w
                    ]).warehouse_id == warehouse_id]
            },
        ),
{
    let r = set_warehouse_status(state, warehouse_id, WarehouseStatus::Inactive);
    proof {
        if r is Ok {
            lemma_status_set(old(state)@, state@, warehouse_id, WarehouseStatus::Inactive);
        }
    }
    r
}

/// Activate a warehouse.
pub fn activate_warehouse(state: &mut CatalogState, warehouse_id: u128) -> (r: CatalogResult<()>)
    requires
        old(state).wf(),
    ensures
        final(state).wf(),
        final(state)@.namespaces == old(state)@.namespaces,
        final(state)@.tables == old(state)@.tables,
        r is Err ==> final(state)@ == old(state)@,
        r is Ok <==> old(state)@.has_warehouse(warehouse_id),
        r matches Err(e) ==> e.kind == ErrorKind::WarehouseNotFound,
        r is Ok ==> final(state)@.warehouse_active(warehouse_id),
        // Exactly the addressed row changes, and only its status: the row is
        // never removed.
        r is Ok ==> final(state)@.warehouses == old(state)@.warehouses.update(
            choose|w: int|
                0 <= w < old(state)@.warehouses.len() && (#[trigger] old(state)@.warehouses[
                    w
                ]).warehouse_id == warehouse_id,
            WarehouseV {
                status: WarehouseStatus::Active,
                ..old(state)@.warehouses[choose|w: int|
                    0 <= w < old(state)@.warehouses.len() && (#[trigger] old(state)@.warehouses[
                        w
                    ]).warehouse_id == warehouse_id]
            },
        ),
{
    let r = set_warehouse_status(state, warehouse_id, WarehouseStatus::Active);
    proof {
        if r is Ok {
            lemma_status_set(old(state)@, state@, warehouse_id, WarehouseStatus::Active);
        }
    }
    r
}

/// After rewriting the row of `warehouse_id` with the given status, the
/// warehouse is active exactly when the status says so.
proof fn lemma_status_set(
    pre: crate::catalog::CatalogStateV,
    post: crate::catalog::CatalogStateV,
    warehouse_id: u128,
    status: WarehouseStatus,
)
    requires
        pre.inv(),
        pre.has_warehouse(warehouse_id),
        post.warehouses == pre.warehouses.update(
            choose|w: int|
                0 <= w < pre.warehouses.len() && (#[trigger] pre.warehouses[w]).warehouse_id
                    == warehouse_id,
            WarehouseV {
                status,
                ..pre.warehouses[choose|w: int|
                    0 <= w < pre.warehouses.len() && (#[trigger] pre.warehouses[w]).warehouse_id
                        == warehouse_id]
            },
        ),
    ensures
        post.warehouse_active(warehouse_id) == (status == WarehouseStatus::Active),
{
    let w = choose|w: int|
        0 <= w < pre.warehouses.len() && (#[trigger] pre.warehouses[w]).warehouse_id
            == warehouse_id;
    if status == WarehouseStatus::Active {
        assert(post.warehouses[w].warehouse_id == warehouse_id && post.warehouses[w].status
            == WarehouseStatus::Active);
    } else {
        if post.warehouse_active(warehouse_id) {
            let w2 = choose|w2: int|
                0 <= w2 < post.warehouses.len() && (#[trigger] post.warehouses[w2]).warehouse_id
                    == warehouse_id && post.warehouses[w2].status == WarehouseStatus::Active;
            if w2 != w {
                crate::catalog::lemma_warehouse_id_unique(pre, w, w2);
            }
            assert(false);
        }
    }
}

/// Rename a warehouse within its project; the new name must be free there.
#[verifier::loop_isolation(false)]
pub fn rename_warehouse(state: &mut CatalogState, warehouse_id: u128, new_name: String) -> (r:
    CatalogResult<()>)
    requires
        old(state).wf(),
    ensures
        final(state).wf(),
        final(state)@.namespaces == old(state)@.namespaces,
        final(state)@.tables == old(state)@.tables,
        r is Err ==> final(state)@ == old(state)@,
        !old(state)@.has_warehouse(warehouse_id) <==> (r matches Err(e) && e.kind
            == ErrorKind::WarehouseNotFound),
        r matches Err(e) ==> e.kind == ErrorKind::WarehouseNotFound || e.kind
            == ErrorKind::WarehouseNameAlreadyExists,
        // The new name collides exactly when another warehouse of the same
        // project already bears it.
        ({
            let w = choose|w: int|
                0 <= w < old(state)@.warehouses.len() && (#[trigger] old(state)@.warehouses[
                    w
                ]).warehouse_id == warehouse_id;
            old(state)@.has_warehouse(warehouse_id) && exists|k: int|
                0 <= k < old(state)@.warehouses.len() && k != w && (#[trigger] old(
                    state,
                )@.warehouses[k]).project_id == old(state)@.warehouses[w].project_id && old(
                    state,
                )@.warehouses[k].warehouse_name == new_name@
        }) <==> (r matches Err(e) && e.kind == ErrorKind::WarehouseNameAlreadyExists),
        r is Ok ==> final(state)@.warehouses == old(state)@.warehouses.update(
            choose|w: int|
                0 <= w < old(state)@.warehouses.len() && (#[trigger] old(state)@.warehouses[
                    w
                ]).warehouse_id == warehouse_id,
            WarehouseV {
                warehouse_name: new_name@,
                ..old(state)@.warehouses[choose|w: int|
                    0 <= w < old(state)@.warehouses.len() && (#[trigger] old(state)@.warehouses[
                        w
                    ]).warehouse_id == warehouse_id]
            },
        ),
{
    let ghost pre = state@;
    let w = match find_warehouse(state, warehouse_id) {
        Some(w) => w,
        None => {
            proof {
                if pre.has_warehouse(warehouse_id) {
                    let w2 = choose|w2: int|
                        0 <= w2 < pre.warehouses.len() && (#[trigger] pre.warehouses[
                            w2
                        ]).warehouse_id == warehouse_id;
                    assert(false);
                }
            }
            return Err(
                ErrorModel::new(ErrorKind::WarehouseNotFound, "Warehouse not found".to_owned()),
            );
        },
    };
    let project_id = state.warehouses[w].project_id;
    let n = state.warehouses.len();
    let mut k: usize = 0;
    while k < n
        invariant
            n == state.warehouses@.len(),
            k <= n,
            w < n,
            project_id == pre.warehouses[w as int].project_id,
            forall|j: int|
                0 <= j < k ==> !(j != w && (#[trigger] pre.warehouses[j]).project_id == project_id
                    && pre.warehouses[j].warehouse_name == new_name@),
        decreases n - k,
    {
        if k != w && state.warehouses[k].project_id == project_id && state.warehouses[
            k
        ].warehouse_name == new_name {
            proof {
                assert(pre.warehouses[k as int].warehouse_name == new_name@);
                assert(pre.warehouses[w as int].warehouse_id == warehouse_id);
                assert(pre.has_warehouse(warehouse_id));
                let wc = choose|wc: int|
                    0 <= wc < pre.warehouses.len() && (#[trigger] pre.warehouses[wc]).warehouse_id
                        == warehouse_id;
                crate::catalog::lemma_warehouse_id_unique(pre, w as int, wc);
                assert(pre.warehouses[k as int].project_id == pre.warehouses[wc].project_id
                    && pre.warehouses[k as int].warehouse_name == new_name@ && k as int != wc);
            }
            return Err(
                ErrorModel::new(
                    ErrorKind::WarehouseNameAlreadyExists,
                    "A warehouse with this name already exists in the project".to_owned(),
                ),
            );
        }
        k = k + 1;
    }
    let mut row = clone_warehouse(&state.warehouses[w]);
    row.warehouse_name = new_name;
    let ghost row_v = row@;
    proof {
        assert(pre.has_warehouse(warehouse_id));
        let wc = choose|wc: int|
            0 <= wc < pre.warehouses.len() && (#[trigger] pre.warehouses[wc]).warehouse_id
                == warehouse_id;
        crate::catalog::lemma_warehouse_id_unique(pre, w as int, wc);
        assert(forall|j: int|
            0 <= j < pre.warehouses.len() ==> !(j != wc && (#[trigger] pre.warehouses[
                j
            ]).project_id == pre.warehouses[wc].project_id && pre.warehouses[j].warehouse_name
                == new_name@));
    }
    set_warehouse_row(state, w, row);
    proof {
        assert(row_v =~~= (WarehouseV { warehouse_name: row_v.warehouse_name, ..pre.warehouses[
            w as int
        ] }));
    }
    Ok(())
}

/// Replace a warehouse's storage profile and credential handle. The previous
/// handle is returned so the caller can retire the old secret; the previous
/// credential is never carried over.
pub fn update_storage(
    state: &mut CatalogState,
    warehouse_id: u128,
    storage_profile: StorageProfile,
    storage_secret_id: Option<u128>,
) -> (r: CatalogResult<Option<u128>>)
    requires
        old(state).wf(),
    ensures
        final(state).wf(),
        final(state)@.namespaces == old(state)@.namespaces,
        final(state)@.tables == old(state)@.tables,
        r is Err ==> final(state)@ == old(state)@,
        r is Ok <==> old(state)@.has_warehouse(warehouse_id),
        r matches Err(e) ==> e.kind == ErrorKind::WarehouseNotFound,
        r matches Ok(previous) ==> {
            let w = choose|w: int|
                0 <= w < old(state)@.warehouses.len() && (#[trigger] old(state)@.warehouses[
                    w
                ]).warehouse_id == warehouse_id;
            &&& previous == old(state)@.warehouses[w].storage_secret_id
            &&& final(state)@.warehouses == old(state)@.warehouses.update(
                w,
                WarehouseV {
                    storage_profile: storage_profile@,
                    storage_secret_id,
                    ..old(state)@.warehouses[w]
                },
            )
        },
{
    let ghost pre = state@;
    let w = match find_warehouse(state, warehouse_id) {
        Some(w) => w,
        None => {
            proof {
                if pre.has_warehouse(warehouse_id) {
                    let w2 = choose|w2: int|
                        0 <= w2 < pre.warehouses.len() && (#[trigger] pre.warehouses[
                            w2
                        ]).warehouse_id == warehouse_id;
                    assert(false);
                }
            }
            return Err(
                ErrorModel::new(ErrorKind::WarehouseNotFound, "Warehouse not found".to_owned()),
            );
        },
    };
    let previous = state.warehouses[w].storage_secret_id;
    let mut row = clone_warehouse(&state.warehouses[w]);
    row.storage_profile = storage_profile;
    row.storage_secret_id = storage_secret_id;
    let ghost row_v = row@;
    proof {
        assert(pre.has_warehouse(warehouse_id));
        let wc = choose|wc: int|
            0 <= wc < pre.warehouses.len() && (#[trigger] pre.warehouses[wc]).warehouse_id
                == warehouse_id;
        crate::catalog::lemma_warehouse_id_unique(pre, w as int, wc);
        assert forall|k: int|
            0 <= k < pre.warehouses.len() && k != w implies !((#[trigger] pre.warehouses[
            k
        ]).project_id == row_v.project_id && pre.warehouses[k].warehouse_name
            == row_v.warehouse_name) by {
            if k < w as int {
                assert(pre.warehouses[k].warehouse_id != pre.warehouses[w as int].warehouse_id);
            } else {
                assert(pre.warehouses[w as int].warehouse_id != pre.warehouses[k].warehouse_id);
            }
        }
    }
    set_warehouse_row(state, w, row);
    proof {
        assert(row_v =~~= (WarehouseV {
            storage_profile: row_v.storage_profile,
            storage_secret_id,
            ..pre.warehouses[w as int]
        }));
    }
    Ok(previous)
}

/// Replace or remove a warehouse's credential handle; the profile stays. The
/// previous handle is returned so the caller can retire the old secret.
pub fn update_credential(
    state: &mut CatalogState,
    warehouse_id: u128,
    new_storage_secret_id: Option<u128>,
) -> (r: CatalogResult<Option<u128>>)
    requires
        old(state).wf(),
    ensures
        final(state).wf(),
        final(state)@.namespaces == old(state)@.namespaces,
        final(state)@.tables == old(state)@.tables,
        r is Err ==> final(state)@ == old(state)@,
        r is Ok <==> old(state)@.has_warehouse(warehouse_id),
        r matches Err(e) ==> e.kind == ErrorKind::WarehouseNotFound,
        r matches Ok(previous) ==> {
            let w = choose|w: int|
                0 <= w < old(state)@.warehouses.len() && (#[trigger] old(state)@.warehouses[
                    w
                ]).warehouse_id == warehouse_id;
            &&& previous == old(state)@.warehouses[w].storage_secret_id
            &&& final(state)@.warehouses == old(state)@.warehouses.update(
                w,
                WarehouseV {
                    storage_secret_id: new_storage_secret_id,
                    ..old(state)@.warehouses[w]
                },
            )
        },
{
    let ghost pre = state@;
    let w = match find_warehouse(state, warehouse_id) {
        Some(w) => w,
        None => {
            proof {
                if pre.has_warehouse(warehouse_id) {
                    let w2 = choose|w2: int|
                        0 <= w2 < pre.warehouses.len() && (#[trigger] pre.warehouses[
                            w2
                        ]).warehouse_id == warehouse_id;
                    assert(false);
                }
            }
            return Err(
                ErrorModel::new(ErrorKind::WarehouseNotFound, "Warehouse not found".to_owned()),
            );
        },
    };
    let previous = state.warehouses[w].storage_secret_id;
    let mut row = clone_warehouse(&state.warehouses[w]);
    row.storage_secret_id = new_storage_secret_id;
    let ghost row_v = row@;
    proof {
        assert(pre.has_warehouse(warehouse_id));
        let wc = choose|wc: int|
            0 <= wc < pre.warehouses.len() && (#[trigger] pre.warehouses[wc]).warehouse_id
                == warehouse_id;
        crate::catalog::lemma_warehouse_id_unique(pre, w as int, wc);
        assert forall|k: int|
            0 <= k < pre.warehouses.len() && k != w implies !((#[trigger] pre.warehouses[
            k
        ]).project_id == row_v.project_id && pre.warehouses[k].warehouse_name
            == row_v.warehouse_name) by {
            if k < w as int {
                assert(pre.warehouses[k].warehouse_id != pre.warehouses[w as int].warehouse_id);
            } else {
                assert(pre.warehouses[w as int].warehouse_id != pre.warehouses[k].warehouse_id);
            }
        }
    }
    set_warehouse_row(state, w, row);
    proof {
        assert(row_v =~~= (WarehouseV {
            storage_secret_id: new_storage_secret_id,
            ..pre.warehouses[w as int]
        }));
    }
    Ok(previous)
}

} // verus!
