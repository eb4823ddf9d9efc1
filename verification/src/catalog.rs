//! The catalog state: warehouses, namespaces and table rows, with the
//! invariants the relational schema enforces, and the spec-level lookups the
//! operation contracts are stated over.

use vstd::prelude::*;
use vstd::std_specs::iter::IteratorSpec;

use crate::ident::NamespaceIdent;
use crate::metadata::{TableMetadata, TableMetadataV};
use crate::properties::Properties;
use crate::storage::{StorageProfile, StorageProfileV};

verus! {

broadcast use vstd::string::axiom_spec_iter, vstd::string::next_postcondition;

/// Whether a string is a prefix of another, character for character.
pub open spec fn is_prefix_of(p: Seq<char>, s: Seq<char>) -> bool {
    p.len() <= s.len() && s.subrange(0, p.len() as int) == p
}

/// Exact, character-wise prefix test.
pub fn str_starts_with(prefix: &str, s: &str) -> (r: bool)
    ensures
        r == is_prefix_of(prefix@, s@),
{
    let mut pc = prefix.chars();
    let mut sc = s.chars();
    let ghost mut i: int = 0;
    loop
        invariant
            0 <= i <= prefix@.len(),
            i <= s@.len(),
            pc.remaining() == prefix@.skip(i),
            sc.remaining() == s@.skip(i),
            forall|j: int| 0 <= j < i ==> prefix@[j] == s@[j],
        decreases prefix@.len() - i,
    {
        match pc.next() {
            None => {
                proof {
                    assert(prefix@.len() == i);
                    assert(s@.subrange(0, i) =~= prefix@);
                }
                return true;
            },
            Some(c) => {
                assert(c == prefix@[i]);
                match sc.next() {
                    None => {
                        proof {
                            assert(s@.len() == i);
                            assert(prefix@.len() > s@.len());
                        }
                        return false;
                    },
                    Some(d) => {
                        assert(d == s@[i]);
                        if c != d {
                            proof {
                                if is_prefix_of(prefix@, s@) {
                                    assert(s@.subrange(0, prefix@.len() as int)[i] == prefix@[i]);
                                }
                            }
                            return false;
                        }
                        proof {
                            assert(prefix@.skip(i).drop_first() =~= prefix@.skip(i + 1));
                            assert(s@.skip(i).drop_first() =~= s@.skip(i + 1));
                            i = i + 1;
                        }
                    },
                }
            },
        }
    }
}

/// The lifecycle status of a warehouse.
#[derive(Debug, Clone, Copy, PartialEq, Eq, Structural)]
pub enum WarehouseStatus {
    Active,
    Inactive,
}

/// A warehouse row.
#[derive(Debug)]
pub struct Warehouse {
    pub warehouse_id: u128,
    pub warehouse_name: String,
    pub project_id: u128,
    pub storage_profile: StorageProfile,
    pub storage_secret_id: Option<u128>,
    pub status: WarehouseStatus,
}

#[verifier::ext_equal]
pub struct WarehouseV {
    pub warehouse_id: u128,
    pub warehouse_name: Seq<char>,
    pub project_id: u128,
    pub storage_profile: StorageProfileV,
    pub storage_secret_id: Option<u128>,
    pub status: WarehouseStatus,
}

impl View for Warehouse {
    type V = WarehouseV;

    open spec fn view(&self) -> WarehouseV {
        WarehouseV {
            warehouse_id: self.warehouse_id,
            warehouse_name: self.warehouse_name@,
            project_id: self.project_id,
            storage_profile: self.storage_profile@,
            storage_secret_id: self.storage_secret_id,
            status: self.status,
        }
    }
}

/// A namespace row.
#[derive(Debug)]
pub struct Namespace {
    pub namespace_id: u128,
    pub warehouse_id: u128,
    pub namespace_name: NamespaceIdent,
    pub properties: Properties,
}

#[verifier::ext_equal]
pub struct NamespaceV {
    pub namespace_id: u128,
    pub warehouse_id: u128,
    pub namespace_name: Seq<Seq<char>>,
    pub properties: Map<Seq<char>, Seq<char>>,
}

impl View for Namespace {
    type V = NamespaceV;

    open spec fn view(&self) -> NamespaceV {
        NamespaceV {
            namespace_id: self.namespace_id,
            warehouse_id: self.warehouse_id,
            namespace_name: self.namespace_name@,
            properties: self.properties@,
        }
    }
}

/// A table row.
#[derive(Debug)]
pub struct TableRecord {
    pub table_id: u128,
    pub namespace_id: u128,
    pub table_name: String,
    pub metadata: TableMetadata,
    pub metadata_location: Option<String>,
    pub table_location: String,
}

#[verifier::ext_equal]
pub struct TableRecordV {
    pub table_id: u128,
    pub namespace_id: u128,
    pub table_name: Seq<char>,
    pub metadata: TableMetadataV,
    pub metadata_location: Option<Seq<char>>,
    pub table_location: Seq<char>,
}

impl View for TableRecord {
    type V = TableRecordV;

    open spec fn view(&self) -> TableRecordV {
        TableRecordV {
            table_id: self.table_id,
            namespace_id: self.namespace_id,
            table_name: self.table_name@,
            metadata: self.metadata@,
            metadata_location: self.metadata_location.deep_view(),
            table_location: self.table_location@,
        }
    }
}

impl Clone for TableRecord {
    fn clone(&self) -> (r: Self)
        ensures
            self.metadata.wf() ==> r@ == self@ && r.metadata.wf(),
    {
        TableRecord {
            table_id: self.table_id,
            namespace_id: self.namespace_id,
            table_name: self.table_name.clone(),
            metadata: self.metadata.clone(),
            metadata_location: match &self.metadata_location {
                Some(l) => Some(l.clone()),
                None => None,
            },
            table_location: self.table_location.clone(),
        }
    }
}

impl TableRecordV {
    /// A row with a metadata file pointer is committed; one without is staged.
    pub open spec fn is_committed(self) -> bool {
        self.metadata_location is Some
    }
}

/// The whole catalog state: what the relational store holds.
#[derive(Debug)]
pub struct CatalogState {
    pub warehouses: Vec<Warehouse>,
    pub namespaces: Vec<Namespace>,
    pub tables: Vec<TableRecord>,
}

#[verifier::ext_equal]
pub struct CatalogStateV {
    pub warehouses: Seq<WarehouseV>,
    pub namespaces: Seq<NamespaceV>,
    pub tables: Seq<TableRecordV>,
}

impl View for CatalogState {
    type V = CatalogStateV;

    open spec fn view(&self) -> CatalogStateV {
        CatalogStateV {
            warehouses: self.warehouses.deep_view(),
            namespaces: self.namespaces.deep_view(),
            tables: self.tables.deep_view(),
        }
    }
}

impl DeepView for Warehouse {
    type V = WarehouseV;

    open spec fn deep_view(&self) -> WarehouseV {
        self.view()
    }
}

impl DeepView for Namespace {
    type V = NamespaceV;

    open spec fn deep_view(&self) -> NamespaceV {
        self.view()
    }
}

impl DeepView for TableRecord {
    type V = TableRecordV;

    open spec fn deep_view(&self) -> TableRecordV {
        self.view()
    }
}

impl CatalogStateV {
    pub open spec fn warehouses_unique(self) -> bool {
        forall|i: int, j: int|
            0 <= i < j < self.warehouses.len() ==> #[trigger] self.warehouses[i].warehouse_id
                != #[trigger] self.warehouses[j].warehouse_id && !(self.warehouses[i].project_id
                == self.warehouses[j].project_id && self.warehouses[i].warehouse_name
                == self.warehouses[j].warehouse_name)
    }

    pub open spec fn namespaces_unique(self) -> bool {
        forall|i: int, j: int|
            0 <= i < j < self.namespaces.len() ==> #[trigger] self.namespaces[i].namespace_id
                != #[trigger] self.namespaces[j].namespace_id && !(self.namespaces[i].warehouse_id
                == self.namespaces[j].warehouse_id && self.namespaces[i].namespace_name
                == self.namespaces[j].namespace_name)
    }

    pub open spec fn tables_unique(self) -> bool {
        forall|i: int, j: int|
            0 <= i < j < self.tables.len() ==> #[trigger] self.tables[i].table_id
                != #[trigger] self.tables[j].table_id && !(self.tables[i].namespace_id
                == self.tables[j].namespace_id && self.tables[i].table_name
                == self.tables[j].table_name)
    }

    pub open spec fn namespace_parents_exist(self) -> bool {
        forall|i: int|
            0 <= i < self.namespaces.len() ==> self.has_warehouse(
                #[trigger] self.namespaces[i].warehouse_id,
            ) && self.namespaces[i].namespace_name.len() > 0
    }

    pub open spec fn table_parents_exist(self) -> bool {
        forall|i: int|
            0 <= i < self.tables.len() ==> self.has_namespace(
                #[trigger] self.tables[i].namespace_id,
            )
    }

    /// Every row's metadata document names the row's own id and location.
    pub open spec fn tables_consistent(self) -> bool {
        forall|i: int|
            0 <= i < self.tables.len() ==> (#[trigger] self.tables[i]).metadata.table_uuid
                == self.tables[i].table_id && self.tables[i].metadata.location
                == self.tables[i].table_location
    }

    /// The relational invariants of the catalog.
    pub open spec fn inv(self) -> bool {
        &&& self.warehouses_unique()
        &&& self.namespaces_unique()
        &&& self.tables_unique()
        &&& self.namespace_parents_exist()
        &&& self.table_parents_exist()
        &&& self.tables_consistent()
    }

    /// Whether any warehouse belongs to the project.
    pub open spec fn has_project(self, pid: u128) -> bool {
        exists|i: int| 0 <= i < self.warehouses.len() && (#[trigger] self.warehouses[i]).project_id
            == pid
    }

    pub open spec fn has_warehouse(self, wid: u128) -> bool {
        exists|i: int| 0 <= i < self.warehouses.len() && (#[trigger] self.warehouses[i]).warehouse_id
            == wid
    }

    pub open spec fn warehouse_by_id(self, wid: u128) -> WarehouseV
        recommends
            self.has_warehouse(wid),
    {
        self.warehouses[choose|i: int|
            0 <= i < self.warehouses.len() && (#[trigger] self.warehouses[i]).warehouse_id == wid]
    }

    /// Whether the warehouse exists and is active: every read and write of
    /// namespaces and tables is gated on this.
    pub open spec fn warehouse_active(self, wid: u128) -> bool {
        exists|i: int|
            0 <= i < self.warehouses.len() && (#[trigger] self.warehouses[i]).warehouse_id == wid
                && self.warehouses[i].status == WarehouseStatus::Active
    }

    pub open spec fn has_namespace(self, nsid: u128) -> bool {
        exists|i: int| 0 <= i < self.namespaces.len() && (#[trigger] self.namespaces[i]).namespace_id
            == nsid
    }

    pub open spec fn namespace_by_id(self, nsid: u128) -> NamespaceV
        recommends
            self.has_namespace(nsid),
    {
        self.namespaces[choose|i: int|
            0 <= i < self.namespaces.len() && (#[trigger] self.namespaces[i]).namespace_id == nsid]
    }

    /// Whether namespace row `i` bears the given warehouse and name.
    pub open spec fn namespace_matches(
        self,
        i: int,
        wid: u128,
        ns_name: Seq<Seq<char>>,
    ) -> bool {
        &&& 0 <= i < self.namespaces.len()
        &&& self.namespaces[i].warehouse_id == wid
        &&& self.namespaces[i].namespace_name == ns_name
    }

    /// The namespace of the given name under an active warehouse, if any.
    pub open spec fn resolve_namespace(self, wid: u128, ns_name: Seq<Seq<char>>) -> Option<u128> {
        if self.warehouse_active(wid) && exists|i: int|
            self.namespace_matches(i, wid, ns_name) {
            Some(
                self.namespaces[choose|i: int| self.namespace_matches(i, wid, ns_name)].namespace_id,
            )
        } else {
            None
        }
    }

    /// Whether the namespace with id `nsid` exists under an active warehouse.
    pub open spec fn namespace_active(self, nsid: u128) -> bool {
        exists|j: int|
            0 <= j < self.namespaces.len() && (#[trigger] self.namespaces[j]).namespace_id == nsid
                && self.warehouse_active(self.namespaces[j].warehouse_id)
    }

    /// Whether table row `i` bears the given namespace id and name.
    pub open spec fn row_matches(self, i: int, nsid: u128, name: Seq<char>) -> bool {
        &&& 0 <= i < self.tables.len()
        &&& self.tables[i].namespace_id == nsid
        &&& self.tables[i].table_name == name
    }

    /// Whether table row `i` is addressed by `(wid, ns_name, name)` under an
    /// active warehouse.
    pub open spec fn table_matches(
        self,
        i: int,
        wid: u128,
        ns_name: Seq<Seq<char>>,
        name: Seq<char>,
    ) -> bool {
        &&& 0 <= i < self.tables.len()
        &&& self.tables[i].table_name == name
        &&& exists|j: int|
            self.namespace_matches(j, wid, ns_name) && self.namespaces[j].namespace_id
                == self.tables[i].namespace_id
        &&& self.warehouse_active(wid)
    }

    /// Whether table row `i` is visible when staged rows are or are not asked
    /// for.
    pub open spec fn table_visible(self, i: int, include_staged: bool) -> bool {
        self.tables[i].is_committed() || include_staged
    }

    /// Identifier-to-UUID resolution with staged filtering.
    pub open spec fn resolve_table(
        self,
        wid: u128,
        ns_name: Seq<Seq<char>>,
        name: Seq<char>,
        include_staged: bool,
    ) -> Option<u128> {
        if exists|i: int|
            self.table_matches(i, wid, ns_name, name) && self.table_visible(i, include_staged) {
            Some(
                self.tables[choose|i: int|
                    self.table_matches(i, wid, ns_name, name) && self.table_visible(
                        i,
                        include_staged,
                    )].table_id,
            )
        } else {
            None
        }
    }

    /// Whether table row `i` is the row with id `tid` under an active
    /// warehouse.
    pub open spec fn table_by_id_matches(self, i: int, tid: u128) -> bool {
        &&& 0 <= i < self.tables.len()
        &&& self.tables[i].table_id == tid
        &&& exists|j: int|
            0 <= j < self.namespaces.len() && (#[trigger] self.namespaces[j]).namespace_id
                == self.tables[i].namespace_id && self.warehouse_active(
                self.namespaces[j].warehouse_id,
            )
    }

    /// Whether table row `i` belongs to warehouse `wid` through its
    /// namespace.
    pub open spec fn table_in_warehouse(self, i: int, wid: u128) -> bool {
        exists|j: int|
            0 <= j < self.namespaces.len() && (#[trigger] self.namespaces[j]).namespace_id
                == self.tables[i].namespace_id && self.namespaces[j].warehouse_id == wid
    }

    /// Whether table row `i` is in warehouse `wid` (through its namespace)
    /// and its location is a prefix of `path`, the warehouse being active.
    pub open spec fn table_location_matches(self, i: int, wid: u128, path: Seq<char>) -> bool {
        &&& 0 <= i < self.tables.len()
        &&& self.table_in_warehouse(i, wid)
        &&& self.warehouse_active(wid)
        &&& is_prefix_of(self.tables[i].table_location, path)
    }

    /// Whether table row `i` is the lowest-indexed row whose location is a
    /// prefix of `path` in warehouse `wid`.
    pub open spec fn is_first_location_match(self, i: int, wid: u128, path: Seq<char>) -> bool {
        &&& self.table_location_matches(i, wid, path)
        &&& forall|k: int| 0 <= k < i ==> !self.table_location_matches(k, wid, path)
    }
}

impl CatalogState {
    /// Well-formedness: the relational invariants hold of the view and every
    /// embedded property list has unique keys.
    pub open spec fn wf(&self) -> bool {
        &&& self@.inv()
        &&& forall|i: int|
            0 <= i < self.tables@.len() ==> (#[trigger] self.tables@[i]).metadata.wf()
        &&& forall|i: int|
            0 <= i < self.namespaces@.len() ==> (#[trigger] self.namespaces@[i]).properties.wf()
    }

    /// A catalog with no warehouses, namespaces or tables.
    pub fn new() -> (r: Self)
        ensures
            r.wf(),
            r@.warehouses == Seq::<WarehouseV>::empty(),
            r@.namespaces == Seq::<NamespaceV>::empty(),
            r@.tables == Seq::<TableRecordV>::empty(),
    {
        let r = CatalogState { warehouses: Vec::new(), namespaces: Vec::new(), tables: Vec::new() };
        proof {
            assert(r@.warehouses =~= Seq::<WarehouseV>::empty());
            assert(r@.namespaces =~= Seq::<NamespaceV>::empty());
            assert(r@.tables =~= Seq::<TableRecordV>::empty());
        }
        r
    }
}

/// Two distinct matching rows for one table identifier cannot exist: the
/// matching namespace is unique per warehouse, and table names are unique per
/// namespace.
pub proof fn lemma_table_match_unique(
    s: CatalogStateV,
    wid: u128,
    ns_name: Seq<Seq<char>>,
    name: Seq<char>,
    i1: int,
    i2: int,
)
    requires
        s.inv(),
        s.table_matches(i1, wid, ns_name, name),
        s.table_matches(i2, wid, ns_name, name),
    ensures
        i1 == i2,
{
    let j1 = choose|j: int|
        s.namespace_matches(j, wid, ns_name) && s.namespaces[j].namespace_id
            == s.tables[i1].namespace_id;
    let j2 = choose|j: int|
        s.namespace_matches(j, wid, ns_name) && s.namespaces[j].namespace_id
            == s.tables[i2].namespace_id;
    if j1 != j2 {
        assert(s.namespaces[j1].namespace_id != s.namespaces[j2].namespace_id);
        assert(false);
    }
    assert(s.tables[i1].namespace_id == s.tables[i2].namespace_id);
    if i1 != i2 {
        assert(s.tables[i1].table_id != s.tables[i2].table_id);
        assert(false);
    }
}

/// Two distinct namespace rows cannot bear the same warehouse and name.
pub proof fn lemma_namespace_match_unique(
    s: CatalogStateV,
    wid: u128,
    ns_name: Seq<Seq<char>>,
    j1: int,
    j2: int,
)
    requires
        s.inv(),
        s.namespace_matches(j1, wid, ns_name),
        s.namespace_matches(j2, wid, ns_name),
    ensures
        j1 == j2,
{
    if j1 != j2 {
        assert(s.namespaces[j1].namespace_id != s.namespaces[j2].namespace_id);
        assert(false);
    }
}

/// Two distinct rows cannot bear the same warehouse id.
pub proof fn lemma_warehouse_id_unique(s: CatalogStateV, i1: int, i2: int)
    requires
        s.inv(),
        0 <= i1 < s.warehouses.len(),
        0 <= i2 < s.warehouses.len(),
        s.warehouses[i1].warehouse_id == s.warehouses[i2].warehouse_id,
    ensures
        i1 == i2,
{
    if i1 != i2 {
        if i1 < i2 {
            assert(s.warehouses[i1].warehouse_id != s.warehouses[i2].warehouse_id);
        } else {
            assert(s.warehouses[i2].warehouse_id != s.warehouses[i1].warehouse_id);
        }
    }
}

/// Two distinct rows cannot bear the same namespace id.
pub proof fn lemma_namespace_id_unique(s: CatalogStateV, i1: int, i2: int)
    requires
        s.inv(),
        0 <= i1 < s.namespaces.len(),
        0 <= i2 < s.namespaces.len(),
        s.namespaces[i1].namespace_id == s.namespaces[i2].namespace_id,
    ensures
        i1 == i2,
{
    if i1 != i2 {
        if i1 < i2 {
            assert(s.namespaces[i1].namespace_id != s.namespaces[i2].namespace_id);
        } else {
            assert(s.namespaces[i2].namespace_id != s.namespaces[i1].namespace_id);
        }
    }
}

/// Two distinct rows cannot bear the same namespace id and table name.
pub proof fn lemma_row_match_unique(s: CatalogStateV, nsid: u128, name: Seq<char>, i1: int, i2: int)
    requires
        s.inv(),
        s.row_matches(i1, nsid, name),
        s.row_matches(i2, nsid, name),
    ensures
        i1 == i2,
{
    if i1 != i2 {
        assert(s.tables[i1].table_id != s.tables[i2].table_id);
        assert(false);
    }
}

/// Two distinct rows cannot bear the same table id.
pub proof fn lemma_table_id_unique(s: CatalogStateV, i1: int, i2: int)
    requires
        s.inv(),
        0 <= i1 < s.tables.len(),
        0 <= i2 < s.tables.len(),
        s.tables[i1].table_id == s.tables[i2].table_id,
    ensures
        i1 == i2,
{
    if i1 < i2 {
        assert(s.tables[i1].table_id != s.tables[i2].table_id);
    } else if i2 < i1 {
        assert(s.tables[i2].table_id != s.tables[i1].table_id);
    }
}

} // verus!
