//! The namespace operations: create and resolve namespaces under an active
//! warehouse, list them, and drop one once it holds no tables.

use vstd::prelude::*;

use crate::catalog::{CatalogState, Namespace, NamespaceV};
use crate::error::{CatalogResult, ErrorKind, ErrorModel};
use crate::ident::NamespaceIdent;
use crate::properties::Properties;
use crate::table::{find_namespace, find_namespace_by_id, warehouse_is_active};
use crate::uuids::mint_uuid_v7;

verus! {

/// Create a namespace with a caller-assigned id under an active warehouse.
#[verifier::loop_isolation(false)]
pub fn create_namespace_with_id(
    state: &mut CatalogState,
    warehouse_id: u128,
    namespace_id: u128,
    namespace_name: NamespaceIdent,
    properties: Properties,
) -> (r: CatalogResult<u128>)
    requires
        old(state).wf(),
        namespace_name.wf(),
        properties.wf(),
    ensures
        final(state).wf(),
        final(state)@.warehouses == old(state)@.warehouses,
        final(state)@.tables == old(state)@.tables,
        r is Err ==> final(state)@ == old(state)@,
        !old(state)@.warehouse_active(warehouse_id) <==> (r matches Err(e) && e.kind
            == ErrorKind::WarehouseInactive),
        old(state)@.warehouse_active(warehouse_id) && (exists|j: int|
            old(state)@.namespace_matches(j, warehouse_id, namespace_name@)) <==> (r matches Err(e)
            && e.kind == ErrorKind::NamespaceAlreadyExists),
        r matches Err(e) && e.kind == ErrorKind::NamespaceIdAlreadyExists ==> old(
            state,
        )@.has_namespace(namespace_id),
        r is Ok ==> !old(state)@.has_namespace(namespace_id),
        r matches Err(e) ==> e.kind == ErrorKind::WarehouseInactive || e.kind
            == ErrorKind::NamespaceAlreadyExists || e.kind == ErrorKind::NamespaceIdAlreadyExists,
        r matches Ok(id) ==> id == namespace_id && final(state)@.namespaces == old(
            state,
        )@.namespaces.push(
            NamespaceV {
                namespace_id,
                warehouse_id,
                namespace_name: namespace_name@,
                properties: properties@,
            },
        ),
{
    let ghost pre = state@;
    if !warehouse_is_active(state, warehouse_id) {
        return Err(
            ErrorModel::new(
                ErrorKind::WarehouseInactive,
                "Warehouse not found or not active".to_owned(),
            ),
        );
    }
    match find_namespace(state, warehouse_id, &namespace_name) {
        Some(_) => {
            return Err(
                ErrorModel::new(
                    ErrorKind::NamespaceAlreadyExists,
                    "Namespace already exists in warehouse".to_owned(),
                ),
            );
        },
        None => {},
    }
    match find_namespace_by_id(state, namespace_id) {
        Some(_) => {
            return Err(
                ErrorModel::new(
                    ErrorKind::NamespaceIdAlreadyExists,
                    "A namespace with this id already exists".to_owned(),
                ),
            );
        },
        None => {},
    }
    let row = Namespace { namespace_id, warehouse_id, namespace_name, properties };
    let ghost row_v = row@;
    let ghost pre_shallow = state.namespaces@;
    state.namespaces.push(row);
    proof {
        assert(state@.namespaces =~= pre.namespaces.push(row_v));
        assert forall|i: int|
            0 <= i < state.namespaces@.len() implies (#[trigger] state.namespaces@[
            i
        ]).properties.wf() by {
            if i < pre_shallow.len() {
                assert(state.namespaces@[i] == pre_shallow[i]);
                assert(pre_shallow[i].properties.wf());
            }
        }
        assert(state@.warehouses =~= pre.warehouses);
        assert(state@.tables =~= pre.tables);
        let m = pre.namespaces.len() as int;
        assert forall|a: int, b: int|
            0 <= a < b < state@.namespaces.len() implies #[trigger] state@.namespaces[
            a
        ].namespace_id != #[trigger] state@.namespaces[b].namespace_id && !(state@.namespaces[
            a
        ].warehouse_id == state@.namespaces[b].warehouse_id && state@.namespaces[a].namespace_name
            == state@.namespaces[b].namespace_name) by {
            if b < m {
                assert(pre.namespaces[a].namespace_id != pre.namespaces[b].namespace_id);
            } else {
                assert(pre.namespaces[a].namespace_id != namespace_id);
                assert(!pre.namespace_matches(a, warehouse_id, namespace_name@));
            }
        }
        assert forall|j: int|
            0 <= j < state@.namespaces.len() implies state@.has_warehouse(
            (#[trigger] state@.namespaces[j]).warehouse_id,
        ) && state@.namespaces[j].namespace_name.len() > 0 by {
            if j < m {
                assert(pre.has_warehouse(pre.namespaces[j].warehouse_id));
            } else {
                assert(pre.warehouse_active(warehouse_id));
                let w0 = choose|w0: int|
                    0 <= w0 < pre.warehouses.len() && (#[trigger] pre.warehouses[w0]).warehouse_id
                        == warehouse_id && pre.warehouses[w0].status
                        == crate::catalog::WarehouseStatus::Active;
                assert(state@.warehouses[w0].warehouse_id == warehouse_id);
            }
        }
        assert forall|k: int|
            0 <= k < state@.tables.len() implies state@.has_namespace(
            (#[trigger] state@.tables[k]).namespace_id,
        ) by {
            assert(pre.has_namespace(pre.tables[k].namespace_id));
            let j0 = choose|j0: int|
                0 <= j0 < pre.namespaces.len() && (#[trigger] pre.namespaces[j0]).namespace_id
                    == pre.tables[k].namespace_id;
            assert(state@.namespaces[j0].namespace_id == pre.tables[k].namespace_id);
        }
    }
    Ok(namespace_id)
}

/// Create a namespace with a freshly minted id.
pub fn create_namespace(
    state: &mut CatalogState,
    warehouse_id: u128,
    namespace_name: NamespaceIdent,
    properties: Properties,
) -> (r: CatalogResult<u128>)
    requires
        old(state).wf(),
        namespace_name.wf(),
        properties.wf(),
    ensures
        final(state).wf(),
        final(state)@.warehouses == old(state)@.warehouses,
        final(state)@.tables == old(state)@.tables,
        r is Err ==> final(state)@ == old(state)@,
        !old(state)@.warehouse_active(warehouse_id) <==> (r matches Err(e) && e.kind
            == ErrorKind::WarehouseInactive),
        old(state)@.warehouse_active(warehouse_id) && (exists|j: int|
            old(state)@.namespace_matches(j, warehouse_id, namespace_name@)) <==> (r matches Err(e)
            && e.kind == ErrorKind::NamespaceAlreadyExists),
        r matches Ok(id) ==> final(state)@.namespaces == old(state)@.namespaces.push(
            NamespaceV {
                namespace_id: id,
                warehouse_id,
                namespace_name: namespace_name@,
                properties: properties@,
            },
        ),
        r matches Err(e) ==> e.kind == ErrorKind::WarehouseInactive || e.kind
            == ErrorKind::NamespaceAlreadyExists || e.kind == ErrorKind::NamespaceIdAlreadyExists,
        // A fresh id can only collide with an existing row: on an empty
        // catalog of namespaces the insert always goes through once the
        // warehouse gate and the name are clear.
        r matches Err(e) && e.kind == ErrorKind::NamespaceIdAlreadyExists ==> old(
            state,
        )@.namespaces.len() > 0,
{
    let namespace_id = mint_uuid_v7();
    let r = create_namespace_with_id(state, warehouse_id, namespace_id, namespace_name, properties);
    proof {
        if r matches Err(ref e) && e.kind == ErrorKind::NamespaceIdAlreadyExists {
            let j = choose|j: int|
                0 <= j < old(state)@.namespaces.len() && (#[trigger] old(state)@.namespaces[
                    j
                ]).namespace_id == namespace_id;
            assert(old(state)@.namespaces.len() > 0);
        }
    }
    r
}

/// Resolve a namespace name to its id under an active warehouse.
pub fn namespace_ident_to_id(
    state: &CatalogState,
    warehouse_id: u128,
    namespace: &NamespaceIdent,
) -> (r: Option<u128>)
    requires
        state.wf(),
    ensures
        r == state@.resolve_namespace(warehouse_id, namespace@),
{
    if !warehouse_is_active(state, warehouse_id) {
        return None;
    }
    match find_namespace(state, warehouse_id, namespace) {
        Some(j) => {
            proof {
                let jc = choose|jc: int| state@.namespace_matches(jc, warehouse_id, namespace@);
                crate::catalog::lemma_namespace_match_unique(
                    state@,
                    warehouse_id,
                    namespace@,
                    j as int,
                    jc,
                );
            }
            Some(state.namespaces[j].namespace_id)
        },
        None => None,
    }
}

/// Drop a namespace: it must exist under an active warehouse and hold no
/// tables.
#[verifier::loop_isolation(false)]
pub fn drop_namespace(state: &mut CatalogState, warehouse_id: u128, namespace: &NamespaceIdent) -> (
    r: CatalogResult<()>)
    requires
        old(state).wf(),
    ensures
        final(state).wf(),
        final(state)@.warehouses == old(state)@.warehouses,
        final(state)@.tables == old(state)@.tables,
        r is Err ==> final(state)@ == old(state)@,
        old(state)@.resolve_namespace(warehouse_id, namespace@) is None <==> (r matches Err(e)
            && e.kind == ErrorKind::NamespaceNotFound),
        r matches Err(e) ==> e.kind == ErrorKind::NamespaceNotFound || e.kind
            == ErrorKind::NamespaceNotEmpty,
        r matches Err(e) && e.kind == ErrorKind::NamespaceNotEmpty ==> exists|k: int|
            0 <= k < old(state)@.tables.len() && (#[trigger] old(state)@.tables[k]).namespace_id
                == old(state)@.resolve_namespace(warehouse_id, namespace@)->Some_0,
        r is Ok ==> {
            let j = choose|j: int|
                old(state)@.namespace_matches(j, warehouse_id, namespace@);
            &&& final(state)@.namespaces == old(state)@.namespaces.remove(j)
            &&& forall|k: int|
                0 <= k < old(state)@.tables.len() ==> (#[trigger] old(state)@.tables[
                    k
                ]).namespace_id != old(state)@.namespaces[j].namespace_id
        },
{
    let ghost pre = state@;
    let not_found = || -> (e: ErrorModel)
        ensures
            e.kind == ErrorKind::NamespaceNotFound,
        { ErrorModel::new(ErrorKind::NamespaceNotFound, "Namespace not found".to_owned()) };
    if !warehouse_is_active(state, warehouse_id) {
        return Err(not_found());
    }
    let j = match find_namespace(state, warehouse_id, namespace) {
        Some(j) => j,
        None => {
            return Err(not_found());
        },
    };
    proof {
        let jc = choose|jc: int| pre.namespace_matches(jc, warehouse_id, namespace@);
        crate::catalog::lemma_namespace_match_unique(pre, warehouse_id, namespace@, j as int, jc);
    }
    let namespace_id = state.namespaces[j].namespace_id;
    proof {
        assert(pre.namespaces[j as int].namespace_id == namespace_id);
    }
    let n = state.tables.len();
    let mut k: usize = 0;
    while k < n
        invariant
            k <= n,
            n == state.tables@.len(),
            forall|k2: int|
                0 <= k2 < k ==> (#[trigger] pre.tables[k2]).namespace_id != namespace_id,
        decreases n - k,
    {
        if state.tables[k].namespace_id == namespace_id {
            proof {
                assert(pre.tables[k as int].namespace_id == namespace_id);
            }
            return Err(
                ErrorModel::new(
                    ErrorKind::NamespaceNotEmpty,
                    "Namespace is not empty".to_owned(),
                ),
            );
        }
        k = k + 1;
    }
    state.namespaces.remove(j);
    proof {
        assert(state@.namespaces =~= pre.namespaces.remove(j as int));
        assert(state@.warehouses =~= pre.warehouses);
        assert(state@.tables =~= pre.tables);
        assert forall|a: int, b: int|
            0 <= a < b < state@.namespaces.len() implies #[trigger] state@.namespaces[
            a
        ].namespace_id != #[trigger] state@.namespaces[b].namespace_id && !(state@.namespaces[
            a
        ].warehouse_id == state@.namespaces[b].warehouse_id && state@.namespaces[a].namespace_name
            == state@.namespaces[b].namespace_name) by {
            let a0 = if a < j as int {
                a
            } else {
                a + 1
            };
            let b0 = if b < j as int {
                b
            } else {
                b + 1
            };
            assert(state@.namespaces[a] == pre.namespaces[a0]);
            assert(state@.namespaces[b] == pre.namespaces[b0]);
            assert(pre.namespaces[a0].namespace_id != pre.namespaces[b0].namespace_id);
        }
        assert forall|j2: int|
            0 <= j2 < state@.namespaces.len() implies state@.has_warehouse(
            (#[trigger] state@.namespaces[j2]).warehouse_id,
        ) && state@.namespaces[j2].namespace_name.len() > 0 by {
            let j0 = if j2 < j as int {
                j2
            } else {
                j2 + 1
            };
            assert(state@.namespaces[j2] == pre.namespaces[j0]);
            assert(pre.has_warehouse(pre.namespaces[j0].warehouse_id));
        }
        assert forall|k2: int|
            0 <= k2 < state@.tables.len() implies state@.has_namespace(
            (#[trigger] state@.tables[k2]).namespace_id,
        ) by {
            assert(pre.has_namespace(pre.tables[k2].namespace_id));
            let j0 = choose|j0: int|
                0 <= j0 < pre.namespaces.len() && (#[trigger] pre.namespaces[j0]).namespace_id
                    == pre.tables[k2].namespace_id;
            crate::catalog::lemma_namespace_id_unique(pre, j0, j0);
            assert(j0 != j as int);
            let j1 = if j0 < j as int {
                j0
            } else {
                j0 - 1
            };
            assert(state@.namespaces[j1] == pre.namespaces[j0]);
        }
    }
    Ok(())
}

/// Whether pair `p` reports namespace row `j2` of warehouse `wid`.
pub open spec fn listed_namespace_matches(
    s: crate::catalog::CatalogStateV,
    wid: u128,
    p: (u128, NamespaceIdent),
    j2: int,
) -> bool {
    &&& 0 <= j2 < s.namespaces.len()
    &&& s.namespaces[j2].warehouse_id == wid
    &&& p.0 == s.namespaces[j2].namespace_id
    &&& p.1@ == s.namespaces[j2].namespace_name
}

/// List the namespaces of an active warehouse: each once, with its id and
/// name.
#[verifier::loop_isolation(false)]
pub fn list_namespaces(state: &CatalogState, warehouse_id: u128) -> (r: Vec<(u128, NamespaceIdent)>)
    requires
        state.wf(),
    ensures
        forall|k: int|
            0 <= k < r@.len() ==> {
                &&& state@.has_namespace((#[trigger] r@[k]).0)
                &&& state@.namespace_by_id(r@[k].0).warehouse_id == warehouse_id
                &&& state@.namespace_by_id(r@[k].0).namespace_name == r@[k].1@
                &&& state@.warehouse_active(warehouse_id)
            },
        state@.warehouse_active(warehouse_id) ==> forall|j: int|
            0 <= j < state@.namespaces.len() && (#[trigger] state@.namespaces[j]).warehouse_id
                == warehouse_id ==> exists|k: int|
                0 <= k < r@.len() && (#[trigger] r@[k]).0 == state@.namespaces[j].namespace_id,
        forall|k1: int, k2: int| 0 <= k1 < k2 < r@.len() ==> (#[trigger] r@[k1]).0 != (
        #[trigger] r@[k2]).0,
{
    let mut out: Vec<(u128, NamespaceIdent)> = Vec::new();
    if !warehouse_is_active(state, warehouse_id) {
        return out;
    }
    let n = state.namespaces.len();
    let ghost mut picked: Seq<int> = Seq::empty();
    let mut j: usize = 0;
    while j < n
        invariant
            j <= n,
            n == state.namespaces@.len(),
            out@.len() == picked.len(),
            forall|k: int|
                0 <= k < out@.len() ==> 0 <= #[trigger] picked[k] < j && listed_namespace_matches(
                    state@,
                    warehouse_id,
                    out@[k],
                    picked[k],
                ),
            forall|j2: int|
                0 <= j2 < j && (#[trigger] state@.namespaces[j2]).warehouse_id == warehouse_id
                    ==> exists|k: int|
                    0 <= k < out@.len() && (#[trigger] out@[k]).0 == state@.namespaces[
                        j2
                    ].namespace_id,
            forall|k1: int, k2: int| 0 <= k1 < k2 < out@.len() ==> picked[k1] != picked[k2],
        decreases n - j,
    {
        proof {
            assert(state@.namespaces[j as int] == state.namespaces@[j as int]@);
        }
        if state.namespaces[j].warehouse_id == warehouse_id {
            let pair = (
                state.namespaces[j].namespace_id,
                state.namespaces[j].namespace_name.clone(),
            );
            let ghost pre_out = out@;
            let ghost pair_g = pair;
            out.push(pair);
            proof {
                let pre_picked = picked;
                picked = picked.push(j as int);
                assert(forall|k: int| 0 <= k < pre_out.len() ==> out@[k] == #[trigger] pre_out[k]);
                assert(forall|k: int|
                    0 <= k < pre_picked.len() ==> picked[k] == #[trigger] pre_picked[k]);
                assert(picked[picked.len() - 1] == j as int);
                assert(out@[out@.len() - 1] == pair_g);
                assert(pair_g.0 == state@.namespaces[j as int].namespace_id);
                assert(pair_g.1@ == state@.namespaces[j as int].namespace_name);
                assert(listed_namespace_matches(state@, warehouse_id, pair_g, j as int));
            }
        }
        j = j + 1;
    }
    proof {
        assert forall|k: int| 0 <= k < out@.len() implies {
            &&& state@.has_namespace((#[trigger] out@[k]).0)
            &&& state@.namespace_by_id(out@[k].0).warehouse_id == warehouse_id
            &&& state@.namespace_by_id(out@[k].0).namespace_name == out@[k].1@
            &&& state@.warehouse_active(warehouse_id)
        } by {
            let j2 = picked[k];
            assert(listed_namespace_matches(state@, warehouse_id, out@[k], j2));
            assert(state@.namespaces[j2].namespace_id == out@[k].0);
            assert(state@.has_namespace(out@[k].0));
            let jc = choose|jc: int|
                0 <= jc < state@.namespaces.len() && (#[trigger] state@.namespaces[
                    jc
                ]).namespace_id == out@[k].0;
            crate::catalog::lemma_namespace_id_unique(state@, j2, jc);
            assert(state@.namespace_by_id(out@[k].0) == state@.namespaces[j2]);
        }
        assert forall|k1: int, k2: int|
            0 <= k1 < k2 < out@.len() implies (#[trigger] out@[k1]).0 != (#[trigger] out@[
            k2
        ]).0 by {
            assert(listed_namespace_matches(state@, warehouse_id, out@[k1], picked[k1]));
            assert(listed_namespace_matches(state@, warehouse_id, out@[k2], picked[k2]));
            if out@[k1].0 == out@[k2].0 {
                crate::catalog::lemma_namespace_id_unique(state@, picked[k1], picked[k2]);
            }
        }
    }
    out
}

} // verus!
