//! The table operations of the catalog: identifier resolution, create, load,
//! list, lookup by id and by location prefix, rename and drop.

use vstd::prelude::*;

use crate::catalog::{CatalogState, CatalogStateV, TableRecord, TableRecordV, WarehouseStatus};
use crate::error::{CatalogResult, ErrorKind, ErrorModel};
use crate::ident::{NamespaceIdent, TableIdent};
use crate::metadata::{
    Schema, SchemaV, SortOrder, TableMetadata, TableMetadataAggregate, TableMetadataV,
    UnboundPartitionSpec, UnboundPartitionSpecV,
};
use crate::properties::Properties;
use crate::storage::StorageProfile;

verus! {

/// The parameter budget of the backing store; batches are bounded by
/// fractions of it.
pub const MAX_PARAMETERS: usize = 30000;

/// Whether the warehouse exists and is active.
pub(crate) fn warehouse_is_active(state: &CatalogState, warehouse_id: u128) -> (r: bool)
    ensures
        r == state@.warehouse_active(warehouse_id),
{
    let n = state.warehouses.len();
    let mut i: usize = 0;
    while i < n
        invariant
            n == state.warehouses@.len(),
            i <= n,
            forall|j: int|
                0 <= j < i ==> !((#[trigger] state@.warehouses[j]).warehouse_id == warehouse_id
                    && state@.warehouses[j].status == WarehouseStatus::Active),
        decreases n - i,
    {
        if state.warehouses[i].warehouse_id == warehouse_id && state.warehouses[i].status
            == WarehouseStatus::Active {
            proof {
                assert(state@.warehouses[i as int].warehouse_id == warehouse_id
                    && state@.warehouses[i as int].status == WarehouseStatus::Active);
            }
            return true;
        }
        i = i + 1;
    }
    false
}

/// The index of the namespace row with this warehouse and name, if any.
pub(crate) fn find_namespace(state: &CatalogState, warehouse_id: u128, namespace: &NamespaceIdent)
    -> (r: Option<usize>)
    ensures
        match r {
            Some(j) => state@.namespace_matches(j as int, warehouse_id, namespace@),
            None => forall|j: int| !state@.namespace_matches(j, warehouse_id, namespace@),
        },
{
    let n = state.namespaces.len();
    let mut i: usize = 0;
    while i < n
        invariant
            n == state.namespaces@.len(),
            i <= n,
            forall|j: int| 0 <= j < i ==> !state@.namespace_matches(j, warehouse_id, namespace@),
        decreases n - i,
    {
        if state.namespaces[i].warehouse_id == warehouse_id && state.namespaces[i].namespace_name
            == *namespace {
            return Some(i);
        }
        i = i + 1;
    }
    None
}

/// The index of the namespace row with this id, if any.
pub(crate) fn find_namespace_by_id(state: &CatalogState, namespace_id: u128) -> (r: Option<usize>)
    ensures
        match r {
            Some(j) => j < state@.namespaces.len() && state@.namespaces[j as int].namespace_id
                == namespace_id,
            None => forall|j: int|
                0 <= j < state@.namespaces.len() ==> (#[trigger] state@.namespaces[j]).namespace_id
                    != namespace_id,
        },
{
    let n = state.namespaces.len();
    let mut i: usize = 0;
    while i < n
        invariant
            n == state.namespaces@.len(),
            i <= n,
            forall|j: int|
                0 <= j < i ==> (#[trigger] state@.namespaces[j]).namespace_id != namespace_id,
        decreases n - i,
    {
        if state.namespaces[i].namespace_id == namespace_id {
            return Some(i);
        }
        i = i + 1;
    }
    None
}

/// The index of the table row with this namespace id and name, if any.
pub(crate) fn find_table_row(state: &CatalogState, namespace_id: u128, name: &String) -> (r: Option<
    usize,
>)
    ensures
        match r {
            Some(i) => state@.row_matches(i as int, namespace_id, name@),
            None => forall|i: int| !state@.row_matches(i, namespace_id, name@),
        },
{
    let n = state.tables.len();
    let mut i: usize = 0;
    while i < n
        invariant
            n == state.tables@.len(),
            i <= n,
            forall|j: int| 0 <= j < i ==> !state@.row_matches(j, namespace_id, name@),
        decreases n - i,
    {
        if state.tables[i].namespace_id == namespace_id && state.tables[i].table_name == *name {
            return Some(i);
        }
        i = i + 1;
    }
    None
}

/// The index of the table row with this table id, if any.
pub(crate) fn find_table_by_id(state: &CatalogState, table_id: u128) -> (r: Option<usize>)
    ensures
        match r {
            Some(i) => i < state@.tables.len() && state@.tables[i as int].table_id == table_id,
            None => forall|i: int|
                0 <= i < state@.tables.len() ==> (#[trigger] state@.tables[i]).table_id != table_id,
        },
{
    let n = state.tables.len();
    let mut i: usize = 0;
    while i < n
        invariant
            n == state.tables@.len(),
            i <= n,
            forall|j: int| 0 <= j < i ==> (#[trigger] state@.tables[j]).table_id != table_id,
        decreases n - i,
    {
        if state.tables[i].table_id == table_id {
            return Some(i);
        }
        i = i + 1;
    }
    None
}

/// Resolve a table identifier to its UUID under an active warehouse, with
/// staged filtering. Never fails on "not found": absence is a value.
pub fn table_ident_to_id(
    state: &CatalogState,
    warehouse_id: u128,
    table: &TableIdent,
    include_staged: bool,
) -> (r: Option<u128>)
    requires
        state.wf(),
    ensures
        r == state@.resolve_table(warehouse_id, table.namespace@, table.name@, include_staged),
{
    let ghost ns = table.namespace@;
    let ghost name = table.name@;
    if !warehouse_is_active(state, warehouse_id) {
        proof {
            if exists|i: int|
                state@.table_matches(i, warehouse_id, ns, name) && state@.table_visible(
                    i,
                    include_staged,
                ) {
                let i = choose|i: int|
                    state@.table_matches(i, warehouse_id, ns, name) && state@.table_visible(
                        i,
                        include_staged,
                    );
                assert(state@.warehouse_active(warehouse_id));
            }
        }
        return None;
    }
    match find_namespace(state, warehouse_id, &table.namespace) {
        None => {
            proof {
                if exists|i: int|
                    state@.table_matches(i, warehouse_id, ns, name) && state@.table_visible(
                        i,
                        include_staged,
                    ) {
                    let i = choose|i: int|
                        state@.table_matches(i, warehouse_id, ns, name) && state@.table_visible(
                            i,
                            include_staged,
                        );
                    let j = choose|j: int|
                        state@.namespace_matches(j, warehouse_id, ns) && state@.namespaces[
                            j
                        ].namespace_id == state@.tables[i].namespace_id;
                    assert(false);
                }
            }
            None
        },
        Some(j) => {
            let namespace_id = state.namespaces[j].namespace_id;
            proof {
                assert(state@.namespaces[j as int].namespace_id == namespace_id);
            }
            match find_table_row(state, namespace_id, &table.name) {
                None => {
                    proof {
                        if exists|i: int|
                            state@.table_matches(i, warehouse_id, ns, name)
                                && state@.table_visible(i, include_staged) {
                            let i = choose|i: int|
                                state@.table_matches(i, warehouse_id, ns, name)
                                    && state@.table_visible(i, include_staged);
                            let j2 = choose|j2: int|
                                state@.namespace_matches(j2, warehouse_id, ns) && state@.namespaces[
                                    j2
                                ].namespace_id == state@.tables[i].namespace_id;
                            crate::catalog::lemma_namespace_match_unique(
                                state@,
                                warehouse_id,
                                ns,
                                j as int,
                                j2,
                            );
                            assert(state@.row_matches(i, namespace_id, name));
                        }
                    }
                    None
                },
                Some(i) => {
                    let committed = state.tables[i].metadata_location.is_some();
                    proof {
                        assert(state@.tables[i as int].namespace_id == namespace_id);
                        assert(state@.namespace_matches(j as int, warehouse_id, ns)
                            && state@.namespaces[j as int].namespace_id == state@.tables[
                            i as int
                        ].namespace_id);
                        assert(state@.table_matches(i as int, warehouse_id, ns, name));
                        assert(committed == state@.tables[i as int].is_committed());
                    }
                    if committed || include_staged {
                        proof {
                            assert(state@.table_visible(i as int, include_staged));
                            assert(exists|i2: int|
                                state@.table_matches(i2, warehouse_id, ns, name)
                                    && state@.table_visible(i2, include_staged));
                            let i2 = choose|i2: int|
                                state@.table_matches(i2, warehouse_id, ns, name)
                                    && state@.table_visible(i2, include_staged);
                            crate::catalog::lemma_table_match_unique(
                                state@,
                                warehouse_id,
                                ns,
                                name,
                                i as int,
                                i2,
                            );
                        }
                        Some(state.tables[i].table_id)
                    } else {
                        proof {
                            if exists|i2: int|
                                state@.table_matches(i2, warehouse_id, ns, name)
                                    && state@.table_visible(i2, include_staged) {
                                let i2 = choose|i2: int|
                                    state@.table_matches(i2, warehouse_id, ns, name)
                                        && state@.table_visible(i2, include_staged);
                                crate::catalog::lemma_table_match_unique(
                                    state@,
                                    warehouse_id,
                                    ns,
                                    name,
                                    i as int,
                                    i2,
                                );
                            }
                        }
                        None
                    }
                },
            }
        },
    }
}

/// Batch identifier resolution. Every requested identifier appears in the
/// result, in order, with either its UUID or `None`; batches over the
/// parameter budget are refused.
pub fn table_idents_to_ids(
    state: &CatalogState,
    warehouse_id: u128,
    tables: &Vec<TableIdent>,
    include_staged: bool,
) -> (r: CatalogResult<Vec<(TableIdent, Option<u128>)>>)
    requires
        state.wf(),
    ensures
        r is Ok <==> tables@.len() <= MAX_PARAMETERS / 2,
        r matches Err(e) ==> e.kind == ErrorKind::TooManyTables,
        r matches Ok(v) ==> {
            &&& v@.len() == tables@.len()
            &&& forall|k: int|
                0 <= k < v@.len() ==> (#[trigger] v@[k]).0@ == tables@[k]@ && v@[k].1
                    == state@.resolve_table(
                    warehouse_id,
                    tables@[k].namespace@,
                    tables@[k].name@,
                    include_staged,
                )
        },
{
    if tables.len() > MAX_PARAMETERS / 2 {
        return Err(
            ErrorModel::new(ErrorKind::TooManyTables, "Too many tables to fetch".to_owned()),
        );
    }
    let n = tables.len();
    let mut out: Vec<(TableIdent, Option<u128>)> = Vec::new();
    let mut i: usize = 0;
    while i < n
        invariant
            state.wf(),
            n == tables@.len(),
            i <= n,
            out@.len() == i,
            forall|k: int|
                0 <= k < i ==> (#[trigger] out@[k]).0@ == tables@[k]@ && out@[k].1
                    == state@.resolve_table(
                    warehouse_id,
                    tables@[k].namespace@,
                    tables@[k].name@,
                    include_staged,
                ),
        decreases n - i,
    {
        let ident = &tables[i];
        let id = table_ident_to_id(state, warehouse_id, ident, include_staged);
        out.push((ident.clone(), id));
        i = i + 1;
    }
    Ok(out)
}

/// A request to create a table.
#[derive(Debug)]
pub struct CreateTableRequest {
    pub name: String,
    pub location: Option<String>,
    pub schema: Schema,
    pub partition_spec: Option<UnboundPartitionSpec>,
    pub write_order: Option<SortOrder>,
    pub stage_create: Option<bool>,
    pub properties: Option<Properties>,
}

impl CreateTableRequest {
    pub open spec fn wf(&self) -> bool {
        match &self.properties {
            Some(p) => p.wf(),
            None => true,
        }
    }

    /// The property map the request carries, empty when none was given.
    pub open spec fn properties_map(&self) -> Map<Seq<char>, Seq<char>> {
        match &self.properties {
            Some(p) => p@,
            None => Map::<Seq<char>, Seq<char>>::empty(),
        }
    }
}

/// The outcome of creating a table: the initial metadata document.
#[derive(Debug)]
pub struct CreateTableResult {
    pub table_metadata: TableMetadata,
}

/// The metadata document an initial create builds: the requested location and
/// schema, the optional partition spec and write order installed as defaults,
/// the given properties, and the assigned UUID.
pub open spec fn built_metadata_v(
    table_id: u128,
    location: Seq<char>,
    schema: SchemaV,
    partition_spec: Option<UnboundPartitionSpecV>,
    write_order: Option<SortOrder>,
    properties: Map<Seq<char>, Seq<char>>,
) -> TableMetadataV {
    TableMetadataV {
        table_uuid: table_id,
        location,
        properties,
        schema,
        partition_specs: match partition_spec {
            Some(s) => seq![s],
            None => Seq::<UnboundPartitionSpecV>::empty(),
        },
        default_spec_idx: match partition_spec {
            Some(_) => Some(0usize),
            None => None,
        },
        sort_orders: match write_order {
            Some(o) => seq![o],
            None => Seq::<SortOrder>::empty(),
        },
        default_sort_order_idx: match write_order {
            Some(_) => Some(0usize),
            None => None,
        },
    }
}

/// The row a create writes.
pub open spec fn new_table_row_v(
    table_id: u128,
    namespace_id: u128,
    name: Seq<char>,
    metadata: TableMetadataV,
    metadata_location: Option<Seq<char>>,
    location: Seq<char>,
) -> TableRecordV {
    TableRecordV {
        table_id,
        namespace_id,
        table_name: name,
        metadata,
        metadata_location,
        table_location: location,
    }
}

/// Which error a create is refused with, if any: a missing location, an
/// inactive or missing warehouse, a committed row already under the name, or
/// a table id already in use by another row.
pub open spec fn create_table_error(
    s: CatalogStateV,
    namespace_id: u128,
    name: Seq<char>,
    table_id: u128,
    has_location: bool,
) -> Option<ErrorKind> {
    if !has_location {
        Some(ErrorKind::CreateTableLocationRequired)
    } else if !s.namespace_active(namespace_id) {
        Some(ErrorKind::WarehouseInactive)
    } else if exists|i: int|
        s.row_matches(i, namespace_id, name) && (#[trigger] s.tables[i]).is_committed() {
        Some(ErrorKind::TableAlreadyExists)
    } else if exists|i: int|
        0 <= i < s.tables.len() && (#[trigger] s.tables[i]).table_id == table_id
            && !s.row_matches(i, namespace_id, name) {
        Some(ErrorKind::TableIdAlreadyExists)
    } else {
        None
    }
}

/// Whether any row with the given id other than the row under `(nsid, name)`
/// exists.
fn other_row_has_id(state: &CatalogState, table_id: u128, namespace_id: u128, name: &String) -> (r:
    bool)
    ensures
        r == exists|i: int|
            0 <= i < state@.tables.len() && (#[trigger] state@.tables[i]).table_id == table_id
                && !state@.row_matches(i, namespace_id, name@),
{
    let n = state.tables.len();
    let mut i: usize = 0;
    while i < n
        invariant
            n == state.tables@.len(),
            i <= n,
            forall|j: int|
                0 <= j < i ==> !((#[trigger] state@.tables[j]).table_id == table_id
                    && !state@.row_matches(j, namespace_id, name@)),
        decreases n - i,
    {
        if state.tables[i].table_id == table_id && !(state.tables[i].namespace_id == namespace_id
            && state.tables[i].table_name == *name) {
            proof {
                assert(state@.tables[i as int].table_id == table_id && !state@.row_matches(
                    i as int,
                    namespace_id,
                    name@,
                ));
            }
            return true;
        }
        i = i + 1;
    }
    false
}

/// Create a table under the given namespace with a freshly assigned UUID.
///
/// The initial metadata is built from the request; a `location` is required.
/// On a name collision the staged row, if that is what stands there, is
/// overwritten wholesale; a committed row is a conflict. A create against a
/// missing or inactive warehouse is refused as such, rather than disguised as
/// a name conflict.
pub fn create_table(
    state: &mut CatalogState,
    namespace_id: u128,
    table: &TableIdent,
    table_id: u128,
    request: CreateTableRequest,
    metadata_location: Option<String>,
) -> (r: CatalogResult<CreateTableResult>)
    requires
        old(state).wf(),
        request.wf(),
    ensures
        final(state).wf(),
        match create_table_error(
            old(state)@,
            namespace_id,
            table.name@,
            table_id,
            request.location is Some,
        ) {
            Some(kind) => final(state)@ == old(state)@ && (r matches Err(e) && e.kind == kind),
            None => r is Ok,
        },
        r matches Ok(res) ==> {
            let metadata = built_metadata_v(
                table_id,
                request.location->Some_0@,
                request.schema@,
                match request.partition_spec {
                    Some(ref s) => Some(s@),
                    None => None,
                },
                request.write_order,
                request.properties_map(),
            );
            let row = new_table_row_v(
                table_id,
                namespace_id,
                table.name@,
                metadata,
                metadata_location.deep_view(),
                request.location->Some_0@,
            );
            &&& res.table_metadata@ == metadata
            &&& final(state)@.warehouses == old(state)@.warehouses
            &&& final(state)@.namespaces == old(state)@.namespaces
            &&& if exists|i: int| old(state)@.row_matches(i, namespace_id, table.name@) {
                final(state)@.tables == old(state)@.tables.update(
                    choose|i: int| old(state)@.row_matches(i, namespace_id, table.name@),
                    row,
                )
            } else {
                final(state)@.tables == old(state)@.tables.push(row)
            }
        },
{
    let ghost pre = state@;
    let ghost name = table.name@;
    let ghost req_props = request.properties_map();
    let CreateTableRequest {
        name: _,
        location,
        schema,
        partition_spec,
        write_order,
        stage_create: _,
        properties,
    } = request;

    let location = match location {
        Some(l) => l,
        None => {
            return Err(
                ErrorModel::new(
                    ErrorKind::CreateTableLocationRequired,
                    "Table location is required".to_owned(),
                ),
            );
        },
    };

    // Gate on the namespace existing under an active warehouse.
    let gate_ok = match find_namespace_by_id(state, namespace_id) {
        None => false,
        Some(j) => warehouse_is_active(state, state.namespaces[j].warehouse_id),
    };
    if !gate_ok {
        proof {
            if pre.namespace_active(namespace_id) {
                let j2 = choose|j2: int|
                    0 <= j2 < pre.namespaces.len() && (#[trigger] pre.namespaces[j2]).namespace_id
                        == namespace_id && pre.warehouse_active(pre.namespaces[j2].warehouse_id);
                assert(false);
            }
        }
        return Err(
            ErrorModel::new(
                ErrorKind::WarehouseInactive,
                "Namespace not found under an active warehouse".to_owned(),
            ),
        );
    }
    proof {
        assert(pre.namespace_active(namespace_id));
    }

    // Build the initial metadata document.
    let ghost schema_v = schema@;
    let ghost partition_spec_v: Option<UnboundPartitionSpecV> = match partition_spec {
        Some(ref s) => Some(s@),
        None => None,
    };
    let mut builder = TableMetadataAggregate::new(location.clone(), schema);
    match partition_spec {
        Some(spec) => {
            builder.add_partition_spec(spec);
            builder.set_default_partition_spec_last();
        },
        None => {},
    }
    match write_order {
        Some(order) => {
            builder.add_sort_order(order);
            builder.set_default_sort_order_last();
        },
        None => {},
    }
    let props = match properties {
        Some(p) => p,
        None => Properties::new(),
    };
    builder.set_properties(&props);
    builder.assign_uuid(table_id);
    let table_metadata = builder.build();
    let ghost metadata_v = built_metadata_v(
        table_id,
        location@,
        schema_v,
        partition_spec_v,
        write_order,
        req_props,
    );
    proof {
        assert(table_metadata@.properties =~= metadata_v.properties);
        assert(table_metadata@ =~~= metadata_v);
    }

    // Upsert: overwrite a staged row, refuse a committed one.
    let existing = find_table_row(state, namespace_id, &table.name);
    match existing {
        Some(i) => {
            if state.tables[i].metadata_location.is_some() {
                proof {
                    assert(pre.row_matches(i as int, namespace_id, name) && pre.tables[
                        i as int
                    ].is_committed());
                }
                return Err(
                    ErrorModel::new(
                        ErrorKind::TableAlreadyExists,
                        "Table already exists in Namespace".to_owned(),
                    ),
                );
            }
            proof {
                assert forall|k: int|
                    pre.row_matches(k, namespace_id, name) implies !(#[trigger] pre.tables[
                    k
                ]).is_committed() by {
                    crate::catalog::lemma_row_match_unique(pre, namespace_id, name, i as int, k);
                }
            }
            if other_row_has_id(state, table_id, namespace_id, &table.name) {
                return Err(
                    ErrorModel::new(
                        ErrorKind::TableIdAlreadyExists,
                        "A table with this id already exists".to_owned(),
                    ),
                );
            }
            let row = TableRecord {
                table_id,
                namespace_id,
                table_name: table.name.clone(),
                metadata: table_metadata.clone(),
                metadata_location,
                table_location: location,
            };
            let ghost row_v = row@;
            state.tables.set(i, row);
            proof {
                assert(state@.tables =~= pre.tables.update(i as int, row_v));
                let iw = choose|k: int| pre.row_matches(k, namespace_id, name);
                crate::catalog::lemma_row_match_unique(pre, namespace_id, name, i as int, iw);
                lemma_create_upsert_wf(pre, state@, i as int, namespace_id, name, table_id, row_v);
            }
            Ok(CreateTableResult { table_metadata })
        },
        None => {
            if other_row_has_id(state, table_id, namespace_id, &table.name) {
                return Err(
                    ErrorModel::new(
                        ErrorKind::TableIdAlreadyExists,
                        "A table with this id already exists".to_owned(),
                    ),
                );
            }
            let row = TableRecord {
                table_id,
                namespace_id,
                table_name: table.name.clone(),
                metadata: table_metadata.clone(),
                metadata_location,
                table_location: location,
            };
            let ghost row_v = row@;
            state.tables.push(row);
            proof {
                assert(state@.tables =~= pre.tables.push(row_v));
                lemma_create_push_wf(pre, state@, namespace_id, name, table_id, row_v);
            }
            Ok(CreateTableResult { table_metadata })
        },
    }
}

/// Overwriting the unique staged row under a name preserves the invariants.
proof fn lemma_create_upsert_wf(
    pre: CatalogStateV,
    post: CatalogStateV,
    i: int,
    namespace_id: u128,
    name: Seq<char>,
    table_id: u128,
    row: TableRecordV,
)
    requires
        pre.inv(),
        pre.row_matches(i, namespace_id, name),
        pre.namespace_active(namespace_id),
        !(exists|k: int|
            0 <= k < pre.tables.len() && (#[trigger] pre.tables[k]).table_id == table_id
                && !pre.row_matches(k, namespace_id, name)),
        row.table_id == table_id,
        row.namespace_id == namespace_id,
        row.table_name == name,
        row.metadata.table_uuid == table_id,
        row.metadata.location == row.table_location,
        post.tables == pre.tables.update(i, row),
        post.warehouses == pre.warehouses,
        post.namespaces == pre.namespaces,
    ensures
        post.inv(),
{
    assert forall|a: int, b: int| 0 <= a < b < post.tables.len() implies #[trigger] post.tables[
        a
    ].table_id != #[trigger] post.tables[b].table_id && !(post.tables[a].namespace_id
        == post.tables[b].namespace_id && post.tables[a].table_name == post.tables[b].table_name) by {
        assert(pre.tables[a].table_id != pre.tables[b].table_id);
        if a == i {
            if post.tables[b].table_id == table_id {
                assert(pre.tables[b].table_id == table_id);
                assert(pre.row_matches(b, namespace_id, name));
                crate::catalog::lemma_row_match_unique(pre, namespace_id, name, b, i);
            }
            if post.tables[b].namespace_id == namespace_id && post.tables[b].table_name == name {
                crate::catalog::lemma_row_match_unique(pre, namespace_id, name, b, i);
            }
        } else if b == i {
            if post.tables[a].table_id == table_id {
                assert(pre.tables[a].table_id == table_id);
                assert(pre.row_matches(a, namespace_id, name));
                crate::catalog::lemma_row_match_unique(pre, namespace_id, name, a, i);
            }
            if post.tables[a].namespace_id == namespace_id && post.tables[a].table_name == name {
                crate::catalog::lemma_row_match_unique(pre, namespace_id, name, a, i);
            }
        }
    }
    assert forall|k: int| 0 <= k < post.tables.len() implies post.has_namespace(
        (#[trigger] post.tables[k]).namespace_id,
    ) by {
        if k != i {
            assert(pre.has_namespace(pre.tables[k].namespace_id));
        } else {
            let j = choose|j: int|
                0 <= j < pre.namespaces.len() && (#[trigger] pre.namespaces[j]).namespace_id
                    == namespace_id && pre.warehouse_active(pre.namespaces[j].warehouse_id);
            assert(post.namespaces[j].namespace_id == namespace_id);
        }
        assert(post.has_namespace(post.tables[k].namespace_id) == pre.has_namespace(
            post.tables[k].namespace_id,
        ));
    }
}

/// Appending a row under a fresh name and id preserves the invariants.
proof fn lemma_create_push_wf(
    pre: CatalogStateV,
    post: CatalogStateV,
    namespace_id: u128,
    name: Seq<char>,
    table_id: u128,
    row: TableRecordV,
)
    requires
        pre.inv(),
        !(exists|k: int| pre.row_matches(k, namespace_id, name)),
        pre.namespace_active(namespace_id),
        !(exists|k: int|
            0 <= k < pre.tables.len() && (#[trigger] pre.tables[k]).table_id == table_id
                && !pre.row_matches(k, namespace_id, name)),
        row.table_id == table_id,
        row.namespace_id == namespace_id,
        row.table_name == name,
        row.metadata.table_uuid == table_id,
        row.metadata.location == row.table_location,
        post.tables == pre.tables.push(row),
        post.warehouses == pre.warehouses,
        post.namespaces == pre.namespaces,
    ensures
        post.inv(),
{
    let n = pre.tables.len() as int;
    assert forall|a: int, b: int| 0 <= a < b < post.tables.len() implies #[trigger] post.tables[
        a
    ].table_id != #[trigger] post.tables[b].table_id && !(post.tables[a].namespace_id
        == post.tables[b].namespace_id && post.tables[a].table_name == post.tables[b].table_name) by {
        if b == n {
            if post.tables[a].table_id == table_id {
                assert(pre.tables[a].table_id == table_id && !pre.row_matches(
                    a,
                    namespace_id,
                    name,
                ));
            }
            if post.tables[a].namespace_id == namespace_id && post.tables[a].table_name == name {
                assert(pre.row_matches(a, namespace_id, name));
            }
        } else {
            assert(pre.tables[a].table_id != pre.tables[b].table_id);
        }
    }
    assert forall|k: int| 0 <= k < post.tables.len() implies post.has_namespace(
        (#[trigger] post.tables[k]).namespace_id,
    ) by {
        if k < n {
            assert(pre.has_namespace(pre.tables[k].namespace_id));
        } else {
            let j = choose|j: int|
                0 <= j < pre.namespaces.len() && (#[trigger] pre.namespaces[j]).namespace_id
                    == namespace_id && pre.warehouse_active(pre.namespaces[j].warehouse_id);
            assert(post.namespaces[j].namespace_id == namespace_id);
        }
        assert(post.has_namespace(post.tables[k].namespace_id) == pre.has_namespace(
            post.tables[k].namespace_id,
        ));
    }
}

/// The index of the warehouse row with this id, if any.
pub(crate) fn find_warehouse(state: &CatalogState, warehouse_id: u128) -> (r: Option<usize>)
    ensures
        match r {
            Some(w) => w < state@.warehouses.len() && state@.warehouses[w as int].warehouse_id
                == warehouse_id,
            None => forall|w: int|
                0 <= w < state@.warehouses.len() ==> (#[trigger] state@.warehouses[w]).warehouse_id
                    != warehouse_id,
        },
{
    let n = state.warehouses.len();
    let mut i: usize = 0;
    while i < n
        invariant
            n == state.warehouses@.len(),
            i <= n,
            forall|w: int|
                0 <= w < i ==> (#[trigger] state@.warehouses[w]).warehouse_id != warehouse_id,
        decreases n - i,
    {
        if state.warehouses[i].warehouse_id == warehouse_id {
            return Some(i);
        }
        i = i + 1;
    }
    None
}

/// What a successful load returns: the row's identity and metadata, joined
/// with the warehouse's storage profile and secret handle.
#[derive(Debug)]
pub struct LoadTableResult {
    pub table_id: u128,
    pub namespace_id: u128,
    pub table_metadata: TableMetadata,
    pub metadata_location: Option<String>,
    pub storage_secret_ident: Option<u128>,
    pub storage_profile: StorageProfile,
}

/// Load a committed table by identifier. A staged table is invisible here:
/// loading it fails exactly as loading a missing table does.
pub fn load_table(state: &CatalogState, warehouse_id: u128, table: &TableIdent) -> (r:
    CatalogResult<LoadTableResult>)
    requires
        state.wf(),
    ensures
        r is Ok <==> state@.resolve_table(warehouse_id, table.namespace@, table.name@, false)
            is Some,
        r matches Err(e) ==> e.kind == ErrorKind::NoSuchTableError,
        r matches Ok(res) ==> {
            &&& res.table_metadata.wf()
            &&& exists|i: int|
                {
                    &&& state@.table_matches(i, warehouse_id, table.namespace@, table.name@)
                    &&& (#[trigger] state@.tables[i]).is_committed()
                    &&& res.table_id == state@.tables[i].table_id
                    &&& res.namespace_id == state@.tables[i].namespace_id
                    &&& res.table_metadata@ == state@.tables[i].metadata
                    &&& res.metadata_location.deep_view() == state@.tables[i].metadata_location
                }
            &&& res.storage_secret_ident == state@.warehouse_by_id(warehouse_id).storage_secret_id
            &&& res.storage_profile@ == state@.warehouse_by_id(warehouse_id).storage_profile
        },
{
    let ghost ns = table.namespace@;
    let ghost name = table.name@;
    let not_found = || -> (e: ErrorModel)
        ensures
            e.kind == ErrorKind::NoSuchTableError,
        { ErrorModel::new(ErrorKind::NoSuchTableError, "Table not found".to_owned()) };
    let w = match find_warehouse(state, warehouse_id) {
        Some(w) => w,
        None => {
            proof {
                lemma_no_visible_match(state@, warehouse_id, ns, name, false);
            }
            return Err(not_found());
        },
    };
    if !(state.warehouses[w].status == WarehouseStatus::Active) {
        proof {
            if state@.warehouse_active(warehouse_id) {
                let w2 = choose|w2: int|
                    0 <= w2 < state@.warehouses.len() && (#[trigger] state@.warehouses[
                        w2
                    ]).warehouse_id == warehouse_id && state@.warehouses[w2].status
                        == WarehouseStatus::Active;
                crate::catalog::lemma_warehouse_id_unique(state@, w as int, w2);
            }
            lemma_no_visible_match(state@, warehouse_id, ns, name, false);
        }
        return Err(not_found());
    }
    proof {
        assert(state@.warehouses[w as int].warehouse_id == warehouse_id && state@.warehouses[
            w as int
        ].status == WarehouseStatus::Active);
        assert(state@.warehouse_active(warehouse_id));
    }
    let j = match find_namespace(state, warehouse_id, &table.namespace) {
        Some(j) => j,
        None => {
            proof {
                lemma_no_visible_match(state@, warehouse_id, ns, name, false);
            }
            return Err(not_found());
        },
    };
    let namespace_id = state.namespaces[j].namespace_id;
    proof {
        assert(state@.namespaces[j as int].namespace_id == namespace_id);
    }
    let i = match find_table_row(state, namespace_id, &table.name) {
        Some(i) => i,
        None => {
            proof {
                lemma_no_visible_match(state@, warehouse_id, ns, name, false);
            }
            return Err(not_found());
        },
    };
    if state.tables[i].metadata_location.is_none() {
        proof {
            assert(!state@.tables[i as int].is_committed());
            if exists|i2: int|
                state@.table_matches(i2, warehouse_id, ns, name) && state@.table_visible(
                    i2,
                    false,
                ) {
                let i2 = choose|i2: int|
                    state@.table_matches(i2, warehouse_id, ns, name) && state@.table_visible(
                        i2,
                        false,
                    );
                assert(state@.tables[i as int].namespace_id == namespace_id);
                assert(state@.table_matches(i as int, warehouse_id, ns, name));
                crate::catalog::lemma_table_match_unique(
                    state@,
                    warehouse_id,
                    ns,
                    name,
                    i as int,
                    i2,
                );
            }
        }
        return Err(not_found());
    }
    proof {
        assert(state@.tables[i as int].namespace_id == namespace_id);
        assert(state@.table_matches(i as int, warehouse_id, ns, name));
        assert(state@.tables[i as int].is_committed());
        assert(state@.table_visible(i as int, false));
        let w2 = choose|w2: int|
            0 <= w2 < state@.warehouses.len() && (#[trigger] state@.warehouses[w2]).warehouse_id
                == warehouse_id;
        crate::catalog::lemma_warehouse_id_unique(state@, w as int, w2);
    }
    let metadata_location = match &state.tables[i].metadata_location {
        Some(l) => Some(l.clone()),
        None => None,
    };
    Ok(
        LoadTableResult {
            table_id: state.tables[i].table_id,
            namespace_id: state.tables[i].namespace_id,
            table_metadata: state.tables[i].metadata.clone(),
            metadata_location,
            storage_secret_ident: state.warehouses[w].storage_secret_id,
            storage_profile: state.warehouses[w].storage_profile.clone(),
        },
    )
}

/// If the warehouse is not active, or the namespace or row is missing, no
/// row is visible under the identifier.
proof fn lemma_no_visible_match(
    s: CatalogStateV,
    wid: u128,
    ns: Seq<Seq<char>>,
    name: Seq<char>,
    include_staged: bool,
)
    requires
        s.inv(),
        !s.warehouse_active(wid) || (forall|j: int| !s.namespace_matches(j, wid, ns)) || (
        exists|j0: int|
            s.namespace_matches(j0, wid, ns) && (forall|i: int|
                !s.row_matches(i, (#[trigger] s.namespaces[j0]).namespace_id, name))),
    ensures
        s.resolve_table(wid, ns, name, include_staged) is None,
{
    if exists|i: int|
        s.table_matches(i, wid, ns, name) && s.table_visible(i, include_staged) {
        let i = choose|i: int|
            s.table_matches(i, wid, ns, name) && s.table_visible(i, include_staged);
        let j = choose|j: int|
            s.namespace_matches(j, wid, ns) && s.namespaces[j].namespace_id == s.tables[
                i
            ].namespace_id;
        if !s.warehouse_active(wid) {
            assert(false);
        } else if forall|j2: int| !s.namespace_matches(j2, wid, ns) {
            assert(false);
        } else {
            let j0 = choose|j0: int|
                s.namespace_matches(j0, wid, ns) && (forall|i2: int|
                    !s.row_matches(i2, (#[trigger] s.namespaces[j0]).namespace_id, name));
            crate::catalog::lemma_namespace_match_unique(s, wid, ns, j, j0);
            assert(s.row_matches(i, s.namespaces[j0].namespace_id, name));
            assert(false);
        }
    }
}

/// Whether pair `p` reports table row `i2` of namespace `nsid`.
pub open spec fn listed_pair_matches(
    s: CatalogStateV,
    nsid: u128,
    ns: Seq<Seq<char>>,
    p: (u128, TableIdent),
    i2: int,
) -> bool {
    &&& 0 <= i2 < s.tables.len()
    &&& s.tables[i2].namespace_id == nsid
    &&& p.0 == s.tables[i2].table_id
    &&& p.1.namespace@ == ns
    &&& p.1.name@ == s.tables[i2].table_name
}

/// What a correct listing is: every reported pair is a visible row of the
/// namespace, every visible row of the namespace is reported, and no table
/// id is reported twice.
pub open spec fn table_listing_ok(
    s: CatalogStateV,
    wid: u128,
    ns: Seq<Seq<char>>,
    include_staged: bool,
    r: Seq<(u128, TableIdent)>,
) -> bool {
    &&& forall|k: int|
        0 <= k < r.len() ==> (#[trigger] r[k]).1.namespace@ == ns && s.resolve_table(
            wid,
            ns,
            r[k].1.name@,
            include_staged,
        ) == Some(r[k].0)
    &&& forall|i: int|
        s.table_matches(i, wid, ns, (#[trigger] s.tables[i]).table_name) && s.table_visible(
            i,
            include_staged,
        ) ==> exists|k: int| 0 <= k < r.len() && (#[trigger] r[k]).0 == s.tables[i].table_id
    &&& forall|k1: int, k2: int|
        0 <= k1 < k2 < r.len() ==> (#[trigger] r[k1]).0 != (#[trigger] r[k2]).0
}

/// List the tables of a namespace under an active warehouse, optionally
/// including staged rows. Each visible row appears exactly once.
#[verifier::rlimit(100)]
#[verifier::loop_isolation(false)]
pub fn list_tables(
    state: &CatalogState,
    warehouse_id: u128,
    namespace: &NamespaceIdent,
    include_staged: bool,
) -> (r: Vec<(u128, TableIdent)>)
    requires
        state.wf(),
    ensures
        table_listing_ok(state@, warehouse_id, namespace@, include_staged, r@),
{
    let ghost ns = namespace@;
    let mut out: Vec<(u128, TableIdent)> = Vec::new();
    if !warehouse_is_active(state, warehouse_id) {
        proof {
            assert(out@.len() == 0);
            assert(table_listing_ok(state@, warehouse_id, namespace@, include_staged, out@));
        }
        return out;
    }
    let j = match find_namespace(state, warehouse_id, namespace) {
        Some(j) => j,
        None => {
            proof {
                assert forall|i: int|
                    state@.table_matches(i, warehouse_id, ns, (#[trigger] state@.tables[
                        i
                    ]).table_name) && state@.table_visible(i, include_staged) implies false by {
                    let j2 = choose|j2: int|
                        state@.namespace_matches(j2, warehouse_id, ns) && state@.namespaces[
                            j2
                        ].namespace_id == state@.tables[i].namespace_id;
                }
                assert(out@.len() == 0);
                assert(table_listing_ok(state@, warehouse_id, namespace@, include_staged, out@));
            }
            return out;
        },
    };
    let namespace_id = state.namespaces[j].namespace_id;
    proof {
        assert(state@.namespaces[j as int].namespace_id == namespace_id);
    }
    let n = state.tables.len();
    let mut i: usize = 0;
    let ghost mut picked: Seq<int> = Seq::empty();
    let ghost mut pos: Map<int, int> = Map::empty();
    while i < n
        invariant
            i <= n,
            out@.len() == picked.len(),
            forall|k: int|
                0 <= k < out@.len() ==> 0 <= #[trigger] picked[k] < i && listed_pair_matches(
                    state@,
                    namespace_id,
                    ns,
                    out@[k],
                    picked[k],
                ) && state@.table_visible(picked[k], include_staged),
            forall|i2: int|
                0 <= i2 < i && (#[trigger] state@.tables[i2]).namespace_id == namespace_id
                    && state@.table_visible(i2, include_staged) ==> pos.contains_key(i2) && 0 <= pos[
                    i2
                ] < out@.len() && out@[pos[i2]].0 == state@.tables[i2].table_id,
            forall|k1: int, k2: int| 0 <= k1 < k2 < out@.len() ==> picked[k1] != picked[k2],
        decreases n - i,
    {
        let row_in_ns = state.tables[i].namespace_id == namespace_id;
        let visible = state.tables[i].metadata_location.is_some() || include_staged;
        proof {
            assert(state@.tables[i as int] == state.tables@[i as int]@);
            assert(row_in_ns == (state@.tables[i as int].namespace_id == namespace_id));
            assert(visible == state@.table_visible(i as int, include_staged));
        }
        if row_in_ns && visible {
            let ident = TableIdent {
                namespace: namespace.clone(),
                name: state.tables[i].table_name.clone(),
            };
            let pair = (state.tables[i].table_id, ident);
            let ghost pre_out = out@;
            let ghost pair_g = pair;
            out.push(pair);
            proof {
                assert(out@ =~= pre_out.push(pair_g));
                assert(pair_g.0 == state@.tables[i as int].table_id);
                assert(pair_g.1.namespace@ == ns);
                assert(pair_g.1.name@ == state@.tables[i as int].table_name);
                assert(listed_pair_matches(state@, namespace_id, ns, pair_g, i as int));
                picked = picked.push(i as int);
                pos = pos.insert(i as int, pre_out.len() as int);
                assert(forall|k: int| 0 <= k < pre_out.len() ==> out@[k] == #[trigger] pre_out[k]);
            }
        }
        i = i + 1;
    }
    proof {
        assert forall|k: int|
            0 <= k < out@.len() implies (#[trigger] out@[k]).1.namespace@ == namespace@
            && state@.resolve_table(warehouse_id, namespace@, out@[k].1.name@, include_staged)
            == Some(out@[k].0) by {
            let w = picked[k];
            assert(listed_pair_matches(state@, namespace_id, ns, out@[k], w));
            assert(state@.table_matches(w, warehouse_id, ns, out@[k].1.name@));
            assert(state@.table_visible(w, include_staged));
            let w2 = choose|w2: int|
                state@.table_matches(w2, warehouse_id, ns, out@[k].1.name@)
                    && state@.table_visible(w2, include_staged);
            crate::catalog::lemma_table_match_unique(
                state@,
                warehouse_id,
                ns,
                out@[k].1.name@,
                w,
                w2,
            );
        }
        assert forall|i2: int|
            state@.table_matches(i2, warehouse_id, ns, (#[trigger] state@.tables[
                i2
            ]).table_name) && state@.table_visible(i2, include_staged) implies exists|k: int|
            0 <= k < out@.len() && (#[trigger] out@[k]).0 == state@.tables[i2].table_id by {
            let j2 = choose|j2: int|
                state@.namespace_matches(j2, warehouse_id, ns) && state@.namespaces[
                    j2
                ].namespace_id == state@.tables[i2].namespace_id;
            crate::catalog::lemma_namespace_match_unique(state@, warehouse_id, ns, j as int, j2);
            assert(state@.tables[i2].namespace_id == namespace_id);
            let k = pos[i2];
            assert(0 <= k < out@.len() && out@[k].0 == state@.tables[i2].table_id);
        }
        assert forall|k1: int, k2: int|
            0 <= k1 < k2 < out@.len() implies (#[trigger] out@[k1]).0 != (#[trigger] out@[
            k2
        ]).0 by {
            assert(listed_pair_matches(state@, namespace_id, ns, out@[k1], picked[k1]));
            assert(listed_pair_matches(state@, namespace_id, ns, out@[k2], picked[k2]));
            if out@[k1].0 == out@[k2].0 {
                crate::catalog::lemma_table_id_unique(state@, picked[k1], picked[k2]);
            }
        }
        assert(table_listing_ok(state@, warehouse_id, namespace@, include_staged, out@));
    }
    out
}

/// What a metadata lookup returns: the table's identity and locations joined
/// with the warehouse's storage profile and secret handle.
#[derive(Debug)]
pub struct GetTableMetadataResult {
    pub table: TableIdent,
    pub table_id: u128,
    pub warehouse_id: u128,
    pub location: String,
    pub metadata_location: Option<String>,
    pub storage_secret_ident: Option<u128>,
    pub storage_profile: StorageProfile,
}

/// Whether a lookup result reports table row `i` of warehouse `wid`.
pub open spec fn metadata_result_matches(
    s: CatalogStateV,
    wid: u128,
    res: GetTableMetadataResult,
    i: int,
) -> bool {
    &&& 0 <= i < s.tables.len()
    &&& res.table.namespace@ == s.namespace_by_id(s.tables[i].namespace_id).namespace_name
    &&& res.table.name@ == s.tables[i].table_name
    &&& res.table_id == s.tables[i].table_id
    &&& res.warehouse_id == wid
    &&& res.location@ == s.tables[i].table_location
    &&& res.metadata_location.deep_view() == s.tables[i].metadata_location
    &&& res.storage_secret_ident == s.warehouse_by_id(wid).storage_secret_id
    &&& res.storage_profile@ == s.warehouse_by_id(wid).storage_profile
}

/// Look a table up by UUID within a warehouse. A staged row is reported as
/// staged unless the caller opts in; a missing row, an inactive warehouse or
/// a row of another warehouse are all "not found".
pub fn get_table_metadata_by_id(
    state: &CatalogState,
    warehouse_id: u128,
    table_id: u128,
    include_staged: bool,
) -> (r: CatalogResult<GetTableMetadataResult>)
    requires
        state.wf(),
    ensures
        ({
            let found = exists|i: int|
                0 <= i < state@.tables.len() && (#[trigger] state@.tables[i]).table_id == table_id
                    && state@.table_in_warehouse(i, warehouse_id) && state@.warehouse_active(
                    warehouse_id,
                );
            &&& !found <==> (r matches Err(e) && e.kind == ErrorKind::NoSuchTableError)
            &&& found ==> {
                let i = choose|i: int|
                    0 <= i < state@.tables.len() && (#[trigger] state@.tables[i]).table_id
                        == table_id;
                if !state@.tables[i].is_committed() && !include_staged {
                    r matches Err(e) && e.kind == ErrorKind::TableStaged
                } else {
                    r matches Ok(res) && metadata_result_matches(state@, warehouse_id, res, i)
                }
            }
        }),
{
    let ghost sv = state@;
    let not_found = || -> (e: ErrorModel)
        ensures
            e.kind == ErrorKind::NoSuchTableError,
        { ErrorModel::new(ErrorKind::NoSuchTableError, "Table not found".to_owned()) };
    if !warehouse_is_active(state, warehouse_id) {
        return Err(not_found());
    }
    let i = match find_table_by_id(state, table_id) {
        Some(i) => i,
        None => {
            return Err(not_found());
        },
    };
    let j = match find_namespace_by_id(state, state.tables[i].namespace_id) {
        Some(j) => j,
        None => {
            proof {
                assert(sv.has_namespace(sv.tables[i as int].namespace_id));
                let j2 = choose|j2: int|
                    0 <= j2 < sv.namespaces.len() && (#[trigger] sv.namespaces[j2]).namespace_id
                        == sv.tables[i as int].namespace_id;
                assert(false);
            }
            return Err(not_found());
        },
    };
    proof {
        assert(sv.namespaces[j as int].namespace_id == sv.tables[i as int].namespace_id);
    }
    if !(state.namespaces[j].warehouse_id == warehouse_id) {
        proof {
            assert forall|i2: int|
                0 <= i2 < sv.tables.len() && (#[trigger] sv.tables[i2]).table_id == table_id
                    && sv.table_in_warehouse(i2, warehouse_id) implies false by {
                crate::catalog::lemma_table_id_unique(sv, i as int, i2);
                let j2 = choose|j2: int|
                    0 <= j2 < sv.namespaces.len() && (#[trigger] sv.namespaces[j2]).namespace_id
                        == sv.tables[i2].namespace_id && sv.namespaces[j2].warehouse_id
                        == warehouse_id;
                crate::catalog::lemma_namespace_id_unique(sv, j as int, j2);
            }
        }
        return Err(not_found());
    }
    proof {
        assert(sv.tables[i as int].table_id == table_id);
        assert(sv.table_in_warehouse(i as int, warehouse_id));
        let ic = choose|ic: int|
            0 <= ic < sv.tables.len() && (#[trigger] sv.tables[ic]).table_id == table_id;
        crate::catalog::lemma_table_id_unique(sv, i as int, ic);
    }
    if state.tables[i].metadata_location.is_none() && !include_staged {
        return Err(
            ErrorModel::new(ErrorKind::TableStaged, "Table is staged and not yet created".to_owned()),
        );
    }
    let w = match find_warehouse(state, warehouse_id) {
        Some(w) => w,
        None => {
            proof {
                let w2 = choose|w2: int|
                    0 <= w2 < sv.warehouses.len() && (#[trigger] sv.warehouses[w2]).warehouse_id
                        == warehouse_id && sv.warehouses[w2].status == WarehouseStatus::Active;
                assert(false);
            }
            return Err(not_found());
        },
    };
    proof {
        let w2 = choose|w2: int|
            0 <= w2 < sv.warehouses.len() && (#[trigger] sv.warehouses[w2]).warehouse_id
                == warehouse_id;
        crate::catalog::lemma_warehouse_id_unique(sv, w as int, w2);
    }
    let metadata_location = match &state.tables[i].metadata_location {
        Some(l) => Some(l.clone()),
        None => None,
    };
    Ok(
        GetTableMetadataResult {
            table: TableIdent {
                namespace: state.namespaces[j].namespace_name.clone(),
                name: state.tables[i].table_name.clone(),
            },
            table_id,
            warehouse_id,
            location: state.tables[i].table_location.clone(),
            metadata_location,
            storage_secret_ident: state.warehouses[w].storage_secret_id,
            storage_profile: state.warehouses[w].storage_profile.clone(),
        },
    )
}

/// Look a table up by a path: the unique table whose root location is a
/// prefix of the path. A path shorter than every stored location finds
/// nothing. Where locations overlap, the lowest-indexed row answers.
pub fn get_table_metadata_by_s3_location(
    state: &CatalogState,
    warehouse_id: u128,
    location: &String,
    include_staged: bool,
) -> (r: CatalogResult<GetTableMetadataResult>)
    requires
        state.wf(),
    ensures
        (forall|i: int| !state@.table_location_matches(i, warehouse_id, location@)) <==> (r matches
            Err(e) && e.kind == ErrorKind::NoSuchTableError),
        (exists|i: int|
            #![auto]
            state@.is_first_location_match(i, warehouse_id, location@) && !state@.tables[
                i
            ].is_committed()) && !include_staged <==> (r matches Err(e) && e.kind
            == ErrorKind::TableStaged),
        r matches Err(e) ==> e.kind == ErrorKind::NoSuchTableError || e.kind
            == ErrorKind::TableStaged,
        r matches Ok(res) ==> exists|i: int|
            #![auto]
            state@.is_first_location_match(i, warehouse_id, location@) && state@.table_visible(
                i,
                include_staged,
            ) && metadata_result_matches(state@, warehouse_id, res, i),
{
    let ghost sv = state@;
    let ghost path = location@;
    let not_found = || -> (e: ErrorModel)
        ensures
            e.kind == ErrorKind::NoSuchTableError,
        { ErrorModel::new(ErrorKind::NoSuchTableError, "Table not found".to_owned()) };
    if !warehouse_is_active(state, warehouse_id) {
        return Err(not_found());
    }
    let n = state.tables.len();
    let mut i: usize = 0;
    while i < n
        invariant
            state.wf(),
            sv == state@,
            path == location@,
            n == state.tables@.len(),
            i <= n,
            sv.warehouse_active(warehouse_id),
            forall|k: int| 0 <= k < i ==> !sv.table_location_matches(k, warehouse_id, path),
        decreases n - i,
    {
        let row_in_wh = match find_namespace_by_id(state, state.tables[i].namespace_id) {
            Some(j) => {
                proof {
                    assert(sv.namespaces[j as int].namespace_id == sv.tables[
                        i as int
                    ].namespace_id);
                    if !(sv.namespaces[j as int].warehouse_id == warehouse_id) {
                        if sv.table_in_warehouse(i as int, warehouse_id) {
                            let j2 = choose|j2: int|
                                0 <= j2 < sv.namespaces.len() && (#[trigger] sv.namespaces[
                                    j2
                                ]).namespace_id == sv.tables[i as int].namespace_id
                                    && sv.namespaces[j2].warehouse_id == warehouse_id;
                            crate::catalog::lemma_namespace_id_unique(sv, j as int, j2);
                        }
                    }
                }
                state.namespaces[j].warehouse_id == warehouse_id
            },
            None => {
                proof {
                    assert(sv.has_namespace(sv.tables[i as int].namespace_id));
                    let j2 = choose|j2: int|
                        0 <= j2 < sv.namespaces.len() && (#[trigger] sv.namespaces[
                            j2
                        ]).namespace_id == sv.tables[i as int].namespace_id;
                    assert(false);
                }
                false
            },
        };
        let is_prefix = crate::catalog::str_starts_with(
            state.tables[i].table_location.as_str(),
            location.as_str(),
        );
        proof {
            assert(state.tables@[i as int].table_location@ == sv.tables[i as int].table_location);
        }
        if row_in_wh && is_prefix {
            proof {
                assert(sv.table_location_matches(i as int, warehouse_id, path));
                assert(sv.is_first_location_match(i as int, warehouse_id, path));
            }
            if state.tables[i].metadata_location.is_none() && !include_staged {
                return Err(
                    ErrorModel::new(
                        ErrorKind::TableStaged,
                        "Table is staged and not yet created".to_owned(),
                    ),
                );
            }
            let j = match find_namespace_by_id(state, state.tables[i].namespace_id) {
                Some(j) => j,
                None => {
                    proof {
                        assert(sv.has_namespace(sv.tables[i as int].namespace_id));
                        let j2 = choose|j2: int|
                            0 <= j2 < sv.namespaces.len() && (#[trigger] sv.namespaces[
                                j2
                            ]).namespace_id == sv.tables[i as int].namespace_id;
                        assert(false);
                    }
                    return Err(not_found());
                },
            };
            let w = match find_warehouse(state, warehouse_id) {
                Some(w) => w,
                None => {
                    proof {
                        let w2 = choose|w2: int|
                            0 <= w2 < sv.warehouses.len() && (#[trigger] sv.warehouses[
                                w2
                            ]).warehouse_id == warehouse_id && sv.warehouses[w2].status
                                == WarehouseStatus::Active;
                        assert(false);
                    }
                    return Err(not_found());
                },
            };
            proof {
                assert(sv.namespaces[j as int].namespace_id == sv.tables[i as int].namespace_id);
                let jc = choose|jc: int|
                    0 <= jc < sv.namespaces.len() && (#[trigger] sv.namespaces[jc]).namespace_id
                        == sv.tables[i as int].namespace_id;
                crate::catalog::lemma_namespace_id_unique(sv, j as int, jc);
                let w2 = choose|w2: int|
                    0 <= w2 < sv.warehouses.len() && (#[trigger] sv.warehouses[w2]).warehouse_id
                        == warehouse_id;
                crate::catalog::lemma_warehouse_id_unique(sv, w as int, w2);
            }
            let metadata_location = match &state.tables[i].metadata_location {
                Some(l) => Some(l.clone()),
                None => None,
            };
            let res = GetTableMetadataResult {
                table: TableIdent {
                    namespace: state.namespaces[j].namespace_name.clone(),
                    name: state.tables[i].table_name.clone(),
                },
                table_id: state.tables[i].table_id,
                warehouse_id,
                location: state.tables[i].table_location.clone(),
                metadata_location,
                storage_secret_ident: state.warehouses[w].storage_secret_id,
                storage_profile: state.warehouses[w].storage_profile.clone(),
            };
            proof {
                assert(sv.table_visible(i as int, include_staged));
                assert(res.metadata_location.deep_view() == sv.tables[i as int].metadata_location);
                assert(metadata_result_matches(sv, warehouse_id, res, i as int));
            }
            return Ok(res);
        }
        proof {
            assert(!sv.table_location_matches(i as int, warehouse_id, path));
        }
        i = i + 1;
    }
    Err(not_found())
}

/// Whether renaming row `i` to `(nsid, name)` would collide with another row.
pub open spec fn rename_conflict(s: CatalogStateV, i: int, nsid: u128, name: Seq<char>) -> bool {
    exists|k: int| #[trigger] s.row_matches(k, nsid, name) && k != i
}

/// Rename a table, possibly moving it across namespaces. The table keeps its
/// UUID and its metadata; only the name, and for a cross-namespace move the
/// namespace, change.
///
/// A collision with an existing name in the destination namespace is
/// reported as a conflict here, where the backing store would surface its
/// unique constraint.
pub fn rename_table(
    state: &mut CatalogState,
    warehouse_id: u128,
    source_id: u128,
    source: &TableIdent,
    destination: &TableIdent,
) -> (r: CatalogResult<()>)
    requires
        old(state).wf(),
    ensures
        final(state).wf(),
        final(state)@.warehouses == old(state)@.warehouses,
        final(state)@.namespaces == old(state)@.namespaces,
        r is Err ==> final(state)@ == old(state)@,
        // A rename never touches any table's UUID.
        final(state)@.tables.len() == old(state)@.tables.len() && forall|i: int|
            0 <= i < old(state)@.tables.len() ==> (#[trigger] final(state)@.tables[i]).table_id
                == old(state)@.tables[i].table_id && final(state)@.tables[i].metadata == old(
                state,
            )@.tables[i].metadata,
        source.namespace@ == destination.namespace@ ==> {
            let s = old(state)@;
            let found = s.warehouse_active(warehouse_id) && exists|i: int|
                0 <= i < s.tables.len() && (#[trigger] s.tables[i]).table_id == source_id;
            &&& !found <==> (r matches Err(e) && e.kind == ErrorKind::RenameTableIdNotFound)
            &&& found ==> {
                let i = choose|i: int|
                    0 <= i < s.tables.len() && (#[trigger] s.tables[i]).table_id == source_id;
                if rename_conflict(s, i, s.tables[i].namespace_id, destination.name@) {
                    r matches Err(e) && e.kind == ErrorKind::TableAlreadyExists
                } else {
                    r is Ok && final(state)@.tables == s.tables.update(
                        i,
                        TableRecordV { table_name: destination.name@, ..s.tables[i] },
                    )
                }
            }
        },
        source.namespace@ != destination.namespace@ ==> {
            let s = old(state)@;
            let found = {
                &&& s.warehouse_active(warehouse_id)
                &&& exists|j: int| s.namespace_matches(j, warehouse_id, destination.namespace@)
                &&& exists|i: int|
                    0 <= i < s.tables.len() && (#[trigger] s.tables[i]).table_id == source_id
                        && s.tables[i].table_name == source.name@
            };
            &&& !found <==> (r matches Err(e) && e.kind
                == ErrorKind::RenameTableIdOrNamespaceNotFound)
            &&& found ==> {
                let i = choose|i: int|
                    0 <= i < s.tables.len() && (#[trigger] s.tables[i]).table_id == source_id;
                let j = choose|j: int| s.namespace_matches(j, warehouse_id, destination.namespace@);
                if rename_conflict(s, i, s.namespaces[j].namespace_id, destination.name@) {
                    r matches Err(e) && e.kind == ErrorKind::TableAlreadyExists
                } else {
                    r is Ok && final(state)@.tables == s.tables.update(
                        i,
                        TableRecordV {
                            table_name: destination.name@,
                            namespace_id: s.namespaces[j].namespace_id,
                            ..s.tables[i]
                        },
                    )
                }
            }
        },
{
    let ghost pre = state@;
    if source.namespace == destination.namespace {
        let not_found = || -> (e: ErrorModel)
            ensures
                e.kind == ErrorKind::RenameTableIdNotFound,
            {
                ErrorModel::new(
                    ErrorKind::RenameTableIdNotFound,
                    "ID of Table to rename not found".to_owned(),
                )
            };
        if !warehouse_is_active(state, warehouse_id) {
            return Err(not_found());
        }
        let i = match find_table_by_id(state, source_id) {
            Some(i) => i,
            None => {
                return Err(not_found());
            },
        };
        proof {
            let ic = choose|ic: int|
                0 <= ic < pre.tables.len() && (#[trigger] pre.tables[ic]).table_id == source_id;
            crate::catalog::lemma_table_id_unique(pre, i as int, ic);
        }
        let namespace_id = state.tables[i].namespace_id;
        proof {
            assert(pre.tables[i as int].namespace_id == namespace_id);
        }
        if rename_would_conflict(state, i, namespace_id, &destination.name) {
            return Err(
                ErrorModel::new(
                    ErrorKind::TableAlreadyExists,
                    "Table already exists in Namespace".to_owned(),
                ),
            );
        }
        let mut row = state.tables[i].clone();
        row.table_name = destination.name.clone();
        let ghost row_v = row@;
        state.tables.set(i, row);
        proof {
            assert(state@.tables =~= pre.tables.update(i as int, row_v));
            assert(row_v =~~= (TableRecordV {
                table_name: destination.name@,
                ..pre.tables[i as int]
            }));
            lemma_rename_wf(pre, state@, i as int, namespace_id, destination.name@, row_v);
        }
        Ok(())
    } else {
        let not_found = || -> (e: ErrorModel)
            ensures
                e.kind == ErrorKind::RenameTableIdOrNamespaceNotFound,
            {
                ErrorModel::new(
                    ErrorKind::RenameTableIdOrNamespaceNotFound,
                    "ID of Table to rename not found or destination namespace not found".to_owned(),
                )
            };
        if !warehouse_is_active(state, warehouse_id) {
            return Err(not_found());
        }
        let j = match find_namespace(state, warehouse_id, &destination.namespace) {
            Some(j) => j,
            None => {
                return Err(not_found());
            },
        };
        let i = match find_table_by_id(state, source_id) {
            Some(i) => i,
            None => {
                return Err(not_found());
            },
        };
        if !(state.tables[i].table_name == source.name) {
            proof {
                assert forall|i2: int|
                    0 <= i2 < pre.tables.len() && (#[trigger] pre.tables[i2]).table_id == source_id
                        && pre.tables[i2].table_name == source.name@ implies false by {
                    crate::catalog::lemma_table_id_unique(pre, i as int, i2);
                }
            }
            return Err(not_found());
        }
        proof {
            assert(pre.tables[i as int].table_name == source.name@);
            let ic = choose|ic: int|
                0 <= ic < pre.tables.len() && (#[trigger] pre.tables[ic]).table_id == source_id;
            crate::catalog::lemma_table_id_unique(pre, i as int, ic);
            let jc = choose|jc: int|
                pre.namespace_matches(jc, warehouse_id, destination.namespace@);
            crate::catalog::lemma_namespace_match_unique(
                pre,
                warehouse_id,
                destination.namespace@,
                j as int,
                jc,
            );
        }
        let namespace_id = state.namespaces[j].namespace_id;
        proof {
            assert(pre.namespaces[j as int].namespace_id == namespace_id);
        }
        if rename_would_conflict(state, i, namespace_id, &destination.name) {
            return Err(
                ErrorModel::new(
                    ErrorKind::TableAlreadyExists,
                    "Table already exists in Namespace".to_owned(),
                ),
            );
        }
        let mut row = state.tables[i].clone();
        row.table_name = destination.name.clone();
        row.namespace_id = namespace_id;
        let ghost row_v = row@;
        state.tables.set(i, row);
        proof {
            assert(state@.tables =~= pre.tables.update(i as int, row_v));
            assert(row_v =~~= (TableRecordV {
                table_name: destination.name@,
                namespace_id,
                ..pre.tables[i as int]
            }));
            assert(pre.has_namespace(namespace_id));
            lemma_rename_wf(pre, state@, i as int, namespace_id, destination.name@, row_v);
        }
        Ok(())
    }
}

/// Whether a row other than `i` holds `(nsid, name)`.
fn rename_would_conflict(state: &CatalogState, i: usize, namespace_id: u128, name: &String) -> (r:
    bool)
    ensures
        r == rename_conflict(state@, i as int, namespace_id, name@),
{
    let n = state.tables.len();
    let mut k: usize = 0;
    while k < n
        invariant
            n == state.tables@.len(),
            k <= n,
            forall|k2: int|
                0 <= k2 < k ==> !(#[trigger] state@.row_matches(k2, namespace_id, name@) && k2
                    != i),
        decreases n - k,
    {
        if k != i && state.tables[k].namespace_id == namespace_id && state.tables[k].table_name
            == *name {
            proof {
                assert(state@.row_matches(k as int, namespace_id, name@) && k as int != i as int);
            }
            return true;
        }
        k = k + 1;
    }
    false
}

/// A renamed row preserves the invariants when no other row holds its new
/// `(namespace, name)` and its namespace exists.
proof fn lemma_rename_wf(
    pre: CatalogStateV,
    post: CatalogStateV,
    i: int,
    nsid: u128,
    name: Seq<char>,
    row: TableRecordV,
)
    requires
        pre.inv(),
        0 <= i < pre.tables.len(),
        !rename_conflict(pre, i, nsid, name),
        pre.has_namespace(nsid),
        row.table_id == pre.tables[i].table_id,
        row.namespace_id == nsid,
        row.table_name == name,
        row.metadata == pre.tables[i].metadata,
        row.metadata_location == pre.tables[i].metadata_location,
        row.table_location == pre.tables[i].table_location,
        pre.tables[i].metadata.table_uuid == pre.tables[i].table_id,
        pre.tables[i].metadata.location == pre.tables[i].table_location,
        post.tables == pre.tables.update(i, row),
        post.warehouses == pre.warehouses,
        post.namespaces == pre.namespaces,
    ensures
        post.inv(),
{
    assert forall|a: int, b: int| 0 <= a < b < post.tables.len() implies #[trigger] post.tables[
        a
    ].table_id != #[trigger] post.tables[b].table_id && !(post.tables[a].namespace_id
        == post.tables[b].namespace_id && post.tables[a].table_name == post.tables[b].table_name) by {
        assert(pre.tables[a].table_id != pre.tables[b].table_id);
        if a == i {
            if post.tables[b].namespace_id == nsid && post.tables[b].table_name == name {
                assert(pre.row_matches(b, nsid, name) && b != i);
            }
        } else if b == i {
            if post.tables[a].namespace_id == nsid && post.tables[a].table_name == name {
                assert(pre.row_matches(a, nsid, name) && a != i);
            }
        }
    }
    assert forall|k: int| 0 <= k < post.tables.len() implies post.has_namespace(
        (#[trigger] post.tables[k]).namespace_id,
    ) by {
        if k != i {
            assert(pre.has_namespace(pre.tables[k].namespace_id));
        }
        assert(post.has_namespace(post.tables[k].namespace_id) == pre.has_namespace(
            post.tables[k].namespace_id,
        ));
    }
}

/// Drop a table by UUID, provided its warehouse is active. The row is
/// removed outright.
pub fn drop_table(state: &mut CatalogState, table_id: u128) -> (r: CatalogResult<()>)
    requires
        old(state).wf(),
    ensures
        final(state).wf(),
        final(state)@.warehouses == old(state)@.warehouses,
        final(state)@.namespaces == old(state)@.namespaces,
        r is Err ==> final(state)@ == old(state)@,
        r is Ok <==> exists|i: int| old(state)@.table_by_id_matches(i, table_id),
        r matches Err(e) ==> e.kind == ErrorKind::NoSuchTableError,
        r is Ok ==> final(state)@.tables == old(state)@.tables.remove(
            choose|i: int| old(state)@.table_by_id_matches(i, table_id),
        ),
{
    let ghost pre = state@;
    let not_found = || -> (e: ErrorModel)
        ensures
            e.kind == ErrorKind::NoSuchTableError,
        { ErrorModel::new(ErrorKind::NoSuchTableError, "Table not found".to_owned()) };
    let i = match find_table_by_id(state, table_id) {
        Some(i) => i,
        None => {
            proof {
                if exists|i2: int| pre.table_by_id_matches(i2, table_id) {
                    let i2 = choose|i2: int| pre.table_by_id_matches(i2, table_id);
                    assert(false);
                }
            }
            return Err(not_found());
        },
    };
    let j = match find_namespace_by_id(state, state.tables[i].namespace_id) {
        Some(j) => j,
        None => {
            proof {
                assert(pre.has_namespace(pre.tables[i as int].namespace_id));
                let j2 = choose|j2: int|
                    0 <= j2 < pre.namespaces.len() && (#[trigger] pre.namespaces[j2]).namespace_id
                        == pre.tables[i as int].namespace_id;
                assert(false);
            }
            return Err(not_found());
        },
    };
    proof {
        assert(pre.namespaces[j as int].namespace_id == pre.tables[i as int].namespace_id);
    }
    if !warehouse_is_active(state, state.namespaces[j].warehouse_id) {
        proof {
            if exists|i2: int| pre.table_by_id_matches(i2, table_id) {
                let i2 = choose|i2: int| pre.table_by_id_matches(i2, table_id);
                crate::catalog::lemma_table_id_unique(pre, i as int, i2);
                let j2 = choose|j2: int|
                    0 <= j2 < pre.namespaces.len() && (#[trigger] pre.namespaces[j2]).namespace_id
                        == pre.tables[i2].namespace_id && pre.warehouse_active(
                        pre.namespaces[j2].warehouse_id,
                    );
                crate::catalog::lemma_namespace_id_unique(pre, j as int, j2);
            }
        }
        return Err(not_found());
    }
    proof {
        assert(pre.table_by_id_matches(i as int, table_id));
        let ic = choose|ic: int| pre.table_by_id_matches(ic, table_id);
        crate::catalog::lemma_table_id_unique(pre, i as int, ic);
    }
    state.tables.remove(i);
    proof {
        assert(state@.tables =~= pre.tables.remove(i as int));
        lemma_remove_row_wf(pre, state@, i as int);
    }
    Ok(())
}

/// Removing a row preserves the invariants.
proof fn lemma_remove_row_wf(pre: CatalogStateV, post: CatalogStateV, i: int)
    requires
        pre.inv(),
        0 <= i < pre.tables.len(),
        post.tables == pre.tables.remove(i),
        post.warehouses == pre.warehouses,
        post.namespaces == pre.namespaces,
    ensures
        post.inv(),
{
    assert forall|a: int, b: int| 0 <= a < b < post.tables.len() implies #[trigger] post.tables[
        a
    ].table_id != #[trigger] post.tables[b].table_id && !(post.tables[a].namespace_id
        == post.tables[b].namespace_id && post.tables[a].table_name == post.tables[b].table_name) by {
        let a0 = if a < i {
            a
        } else {
            a + 1
        };
        let b0 = if b < i {
            b
        } else {
            b + 1
        };
        assert(post.tables[a] == pre.tables[a0]);
        assert(post.tables[b] == pre.tables[b0]);
        assert(pre.tables[a0].table_id != pre.tables[b0].table_id);
    }
    assert forall|k: int| 0 <= k < post.tables.len() implies post.has_namespace(
        (#[trigger] post.tables[k]).namespace_id,
    ) by {
        let k0 = if k < i {
            k
        } else {
            k + 1
        };
        assert(post.tables[k] == pre.tables[k0]);
        assert(pre.has_namespace(pre.tables[k0].namespace_id));
        assert(post.has_namespace(post.tables[k].namespace_id) == pre.has_namespace(
            post.tables[k].namespace_id,
        ));
    }
    assert forall|k: int|
        0 <= k < post.tables.len() implies (#[trigger] post.tables[k]).metadata.table_uuid
        == post.tables[k].table_id && post.tables[k].metadata.location == post.tables[
        k
    ].table_location by {
        let k0 = if k < i {
            k
        } else {
            k + 1
        };
        assert(post.tables[k] == pre.tables[k0]);
    }
}

} // verus!
