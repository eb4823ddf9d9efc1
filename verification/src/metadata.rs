//! The table-metadata aggregate: the metadata document, the builder that
//! constructs and evolves it, and the requirement / update kinds of the
//! commit protocol that this core enforces itself.

use vstd::prelude::*;

use crate::error::{CatalogResult, ErrorKind, ErrorModel};
use crate::properties::Properties;

verus! {

/// The primitive column types the schema model distinguishes.
#[derive(Debug, Clone, Copy, PartialEq, Eq, Structural)]
pub enum PrimitiveType {
    Boolean,
    Int,
    Long,
    String,
}

/// A named column of a schema.
#[derive(Debug)]
pub struct NestedField {
    pub id: u32,
    pub name: String,
    pub required: bool,
    pub field_type: PrimitiveType,
}

#[verifier::ext_equal]
pub struct NestedFieldV {
    pub id: u32,
    pub name: Seq<char>,
    pub required: bool,
    pub field_type: PrimitiveType,
}

impl View for NestedField {
    type V = NestedFieldV;

    open spec fn view(&self) -> NestedFieldV {
        NestedFieldV {
            id: self.id,
            name: self.name@,
            required: self.required,
            field_type: self.field_type,
        }
    }
}

impl DeepView for NestedField {
    type V = NestedFieldV;

    open spec fn deep_view(&self) -> NestedFieldV {
        self.view()
    }
}

impl NestedField {
    /// A required column.
    pub fn required(id: u32, name: String, field_type: PrimitiveType) -> (r: Self)
        ensures
            r@ == (NestedFieldV { id, name: name@, required: true, field_type }),
    {
        NestedField { id, name, required: true, field_type }
    }
}

impl Clone for NestedField {
    fn clone(&self) -> (r: Self)
        ensures
            r@ == self@,
    {
        NestedField {
            id: self.id,
            name: self.name.clone(),
            required: self.required,
            field_type: self.field_type,
        }
    }
}

/// A table schema: an id and its columns.
#[derive(Debug)]
pub struct Schema {
    pub schema_id: u32,
    pub fields: Vec<NestedField>,
}

#[verifier::ext_equal]
pub struct SchemaV {
    pub schema_id: u32,
    pub fields: Seq<NestedFieldV>,
}

impl View for Schema {
    type V = SchemaV;

    open spec fn view(&self) -> SchemaV {
        SchemaV { schema_id: self.schema_id, fields: self.fields.deep_view() }
    }
}

impl Schema {
    pub fn new(schema_id: u32, fields: Vec<NestedField>) -> (r: Self)
        ensures
            r@ == (SchemaV { schema_id, fields: fields.deep_view() }),
    {
        Schema { schema_id, fields }
    }
}

impl Clone for Schema {
    fn clone(&self) -> (r: Self)
        ensures
            r@ == self@,
    {
        let mut fields: Vec<NestedField> = Vec::new();
        let n = self.fields.len();
        let mut i: usize = 0;
        while i < n
            invariant
                n == self.fields.len(),
                i <= n,
                fields@.len() == i,
                forall|j: int| 0 <= j < i ==> fields@[j]@ == self.fields@[j]@,
            decreases n - i,
        {
            fields.push(self.fields[i].clone());
            i = i + 1;
        }
        let r = Schema { schema_id: self.schema_id, fields };
        proof {
            assert(r@.fields =~= self@.fields);
        }
        r
    }
}

/// A partition field referencing a source column.
#[derive(Debug)]
pub struct PartitionField {
    pub source_id: u32,
    pub name: String,
}

#[verifier::ext_equal]
pub struct PartitionFieldV {
    pub source_id: u32,
    pub name: Seq<char>,
}

impl View for PartitionField {
    type V = PartitionFieldV;

    open spec fn view(&self) -> PartitionFieldV {
        PartitionFieldV { source_id: self.source_id, name: self.name@ }
    }
}

impl DeepView for PartitionField {
    type V = PartitionFieldV;

    open spec fn deep_view(&self) -> PartitionFieldV {
        self.view()
    }
}

impl Clone for PartitionField {
    fn clone(&self) -> (r: Self)
        ensures
            r@ == self@,
    {
        PartitionField { source_id: self.source_id, name: self.name.clone() }
    }
}

/// A partition spec not yet bound to a schema.
#[derive(Debug)]
pub struct UnboundPartitionSpec {
    pub spec_id: Option<i32>,
    pub fields: Vec<PartitionField>,
}

#[verifier::ext_equal]
pub struct UnboundPartitionSpecV {
    pub spec_id: Option<i32>,
    pub fields: Seq<PartitionFieldV>,
}

impl View for UnboundPartitionSpec {
    type V = UnboundPartitionSpecV;

    open spec fn view(&self) -> UnboundPartitionSpecV {
        UnboundPartitionSpecV { spec_id: self.spec_id, fields: self.fields.deep_view() }
    }
}

impl DeepView for UnboundPartitionSpec {
    type V = UnboundPartitionSpecV;

    open spec fn deep_view(&self) -> UnboundPartitionSpecV {
        self.view()
    }
}

impl Clone for UnboundPartitionSpec {
    fn clone(&self) -> (r: Self)
        ensures
            r@ == self@,
    {
        let mut fields: Vec<PartitionField> = Vec::new();
        let n = self.fields.len();
        let mut i: usize = 0;
        while i < n
            invariant
                n == self.fields.len(),
                i <= n,
                fields@.len() == i,
                forall|j: int| 0 <= j < i ==> fields@[j]@ == self.fields@[j]@,
            decreases n - i,
        {
            fields.push(self.fields[i].clone());
            i = i + 1;
        }
        let r = UnboundPartitionSpec { spec_id: self.spec_id, fields };
        proof {
            assert(r@.fields =~= self@.fields);
        }
        r
    }
}

/// A sort order, by its id; the order's fields are the aggregate's concern.
#[derive(Debug, Clone, Copy, PartialEq, Eq, Structural)]
pub struct SortOrder {
    pub order_id: u32,
}

/// The full metadata document of a table.
#[derive(Debug)]
pub struct TableMetadata {
    pub table_uuid: u128,
    pub location: String,
    pub properties: Properties,
    pub schema: Schema,
    pub partition_specs: Vec<UnboundPartitionSpec>,
    pub default_spec_idx: Option<usize>,
    pub sort_orders: Vec<SortOrder>,
    pub default_sort_order_idx: Option<usize>,
}

#[verifier::ext_equal]
pub struct TableMetadataV {
    pub table_uuid: u128,
    pub location: Seq<char>,
    pub properties: Map<Seq<char>, Seq<char>>,
    pub schema: SchemaV,
    pub partition_specs: Seq<UnboundPartitionSpecV>,
    pub default_spec_idx: Option<usize>,
    pub sort_orders: Seq<SortOrder>,
    pub default_sort_order_idx: Option<usize>,
}

impl View for TableMetadata {
    type V = TableMetadataV;

    open spec fn view(&self) -> TableMetadataV {
        TableMetadataV {
            table_uuid: self.table_uuid,
            location: self.location@,
            properties: self.properties@,
            schema: self.schema@,
            partition_specs: self.partition_specs.deep_view(),
            default_spec_idx: self.default_spec_idx,
            sort_orders: self.sort_orders@,
            default_sort_order_idx: self.default_sort_order_idx,
        }
    }
}

impl TableMetadata {
    pub open spec fn wf(&self) -> bool {
        self.properties.wf()
    }

    /// The table's UUID as recorded inside the metadata document.
    pub fn uuid(&self) -> (r: u128)
        ensures
            r == self@.table_uuid,
    {
        self.table_uuid
    }
}

impl Clone for TableMetadata {
    fn clone(&self) -> (r: Self)
        ensures
            self.wf() ==> r@ == self@ && r.wf(),
    {
        let mut partition_specs: Vec<UnboundPartitionSpec> = Vec::new();
        let n = self.partition_specs.len();
        let mut i: usize = 0;
        while i < n
            invariant
                n == self.partition_specs.len(),
                i <= n,
                partition_specs@.len() == i,
                forall|j: int| 0 <= j < i ==> partition_specs@[j]@ == self.partition_specs@[j]@,
            decreases n - i,
        {
            partition_specs.push(self.partition_specs[i].clone());
            i = i + 1;
        }
        let mut sort_orders: Vec<SortOrder> = Vec::new();
        let m = self.sort_orders.len();
        let mut k: usize = 0;
        while k < m
            invariant
                m == self.sort_orders.len(),
                k <= m,
                sort_orders@.len() == k,
                forall|j: int| 0 <= j < k ==> sort_orders@[j] == self.sort_orders@[j],
            decreases m - k,
        {
            sort_orders.push(self.sort_orders[k]);
            k = k + 1;
        }
        let r = TableMetadata {
            table_uuid: self.table_uuid,
            location: self.location.clone(),
            properties: self.properties.clone(),
            schema: self.schema.clone(),
            partition_specs,
            default_spec_idx: self.default_spec_idx,
            sort_orders,
            default_sort_order_idx: self.default_sort_order_idx,
        };
        proof {
            assert(r@.partition_specs =~= self@.partition_specs);
            assert(r@.sort_orders =~= self@.sort_orders);
            if self.wf() {
                assert(r@ =~= self@);
            }
        }
        r
    }
}

/// The builder over a metadata document: create one from scratch or evolve an
/// existing one, then `build` the result.
#[derive(Debug)]
pub struct TableMetadataAggregate {
    metadata: TableMetadata,
}

impl TableMetadataAggregate {
    pub closed spec fn current(&self) -> TableMetadataV {
        self.metadata@
    }

    pub closed spec fn wf(&self) -> bool {
        self.metadata.wf()
    }

    /// A fresh document at `location` with `schema`: no properties, no
    /// partition specs, no sort orders, and the null UUID until one is
    /// assigned.
    pub fn new(location: String, schema: Schema) -> (r: Self)
        ensures
            r.wf(),
            r.current() == (TableMetadataV {
                table_uuid: 0,
                location: location@,
                properties: Map::<Seq<char>, Seq<char>>::empty(),
                schema: schema@,
                partition_specs: Seq::<UnboundPartitionSpecV>::empty(),
                default_spec_idx: None,
                sort_orders: Seq::<SortOrder>::empty(),
                default_sort_order_idx: None,
            }),
    {
        let metadata = TableMetadata {
            table_uuid: 0,
            location,
            properties: Properties::new(),
            schema,
            partition_specs: Vec::new(),
            default_spec_idx: None,
            sort_orders: Vec::new(),
            default_sort_order_idx: None,
        };
        proof {
            assert(metadata@.partition_specs =~= Seq::<UnboundPartitionSpecV>::empty());
            assert(metadata@.sort_orders =~= Seq::<SortOrder>::empty());
        }
        TableMetadataAggregate { metadata }
    }

    /// Start from an existing document, to evolve it in a commit.
    pub fn new_from_metadata(metadata: TableMetadata) -> (r: Self)
        requires
            metadata.wf(),
        ensures
            r.wf(),
            r.current() == metadata@,
    {
        TableMetadataAggregate { metadata }
    }

    pub fn add_partition_spec(&mut self, spec: UnboundPartitionSpec)
        requires
            old(self).wf(),
        ensures
            final(self).wf(),
            final(self).current() == (TableMetadataV {
                partition_specs: old(self).current().partition_specs.push(spec@),
                ..old(self).current()
            }),
    {
        self.metadata.partition_specs.push(spec);
        proof {
            assert(self.current().partition_specs =~= old(self).current().partition_specs.push(
                spec@,
            ));
            assert(self.current() =~= (TableMetadataV {
                partition_specs: old(self).current().partition_specs.push(spec@),
                ..old(self).current()
            }));
        }
    }

    /// Install the most recently added partition spec as the default.
    pub fn set_default_partition_spec_last(&mut self)
        requires
            old(self).wf(),
            old(self).current().partition_specs.len() > 0,
        ensures
            final(self).wf(),
            final(self).current() == (TableMetadataV {
                default_spec_idx: Some((old(self).current().partition_specs.len() - 1) as usize),
                ..old(self).current()
            }),
    {
        let idx = self.metadata.partition_specs.len() - 1;
        self.metadata.default_spec_idx = Some(idx);
    }

    pub fn add_sort_order(&mut self, order: SortOrder)
        requires
            old(self).wf(),
        ensures
            final(self).wf(),
            final(self).current() == (TableMetadataV {
                sort_orders: old(self).current().sort_orders.push(order),
                ..old(self).current()
            }),
    {
        self.metadata.sort_orders.push(order);
        proof {
            assert(self.current() =~= (TableMetadataV {
                sort_orders: old(self).current().sort_orders.push(order),
                ..old(self).current()
            }));
        }
    }

    /// Install the most recently added sort order as the default.
    pub fn set_default_sort_order_last(&mut self)
        requires
            old(self).wf(),
            old(self).current().sort_orders.len() > 0,
        ensures
            final(self).wf(),
            final(self).current() == (TableMetadataV {
                default_sort_order_idx: Some((old(self).current().sort_orders.len() - 1) as usize),
                ..old(self).current()
            }),
    {
        let idx = self.metadata.sort_orders.len() - 1;
        self.metadata.default_sort_order_idx = Some(idx);
    }

    /// Fold the given properties into the document, later values winning.
    pub fn set_properties(&mut self, properties: &Properties)
        requires
            old(self).wf(),
            properties.wf(),
        ensures
            final(self).wf(),
            final(self).current() == (TableMetadataV {
                properties: old(self).current().properties.union_prefer_right(properties@),
                ..old(self).current()
            }),
    {
        self.metadata.properties.append_all(properties);
        proof {
            assert(self.current() =~= (TableMetadataV {
                properties: old(self).current().properties.union_prefer_right(properties@),
                ..old(self).current()
            }));
        }
    }

    /// Remove one property key.
    pub fn remove_property(&mut self, key: &String)
        requires
            old(self).wf(),
        ensures
            final(self).wf(),
            final(self).current() == (TableMetadataV {
                properties: old(self).current().properties.remove(key@),
                ..old(self).current()
            }),
    {
        self.metadata.properties.remove(key);
        proof {
            assert(self.current() =~= (TableMetadataV {
                properties: old(self).current().properties.remove(key@),
                ..old(self).current()
            }));
        }
    }

    pub fn assign_uuid(&mut self, uuid: u128)
        requires
            old(self).wf(),
        ensures
            final(self).wf(),
            final(self).current() == (TableMetadataV { table_uuid: uuid, ..old(self).current() }),
    {
        self.metadata.table_uuid = uuid;
        proof {
            assert(self.current() =~= (TableMetadataV {
                table_uuid: uuid,
                ..old(self).current()
            }));
        }
    }

    pub fn build(self) -> (r: TableMetadata)
        requires
            self.wf(),
        ensures
            r.wf(),
            r@ == self.current(),
    {
        self.metadata
    }
}

/// A precondition on a table's current metadata; all must hold for a commit
/// to proceed. The kinds beyond these two belong to the aggregate.
#[derive(Debug, Clone, Copy, PartialEq, Eq, Structural)]
pub enum TableRequirement {
    /// Accepted only if the table does not yet exist from the client's
    /// perspective, i.e. it is staged.
    NotExist,
    /// Passes iff the current metadata carries exactly this UUID.
    UuidMatch { uuid: u128 },
}

impl TableRequirement {
    /// Whether the requirement holds of metadata `m` when the table's
    /// existence (a committed metadata file) is `table_exists`.
    pub open spec fn holds(&self, m: TableMetadataV, table_exists: bool) -> bool {
        match self {
            TableRequirement::NotExist => !table_exists,
            TableRequirement::UuidMatch { uuid } => m.table_uuid == *uuid,
        }
    }

    /// Evaluate the requirement against the current metadata.
    pub fn assert_requirement(&self, metadata: &TableMetadata, table_exists: bool) -> (r:
        CatalogResult<()>)
        ensures
            r is Ok <==> self.holds(metadata@, table_exists),
            r matches Err(e) ==> e.kind == ErrorKind::RequirementFailed,
    {
        let ok = match self {
            TableRequirement::NotExist => !table_exists,
            TableRequirement::UuidMatch { uuid } => metadata.table_uuid == *uuid,
        };
        if ok {
            Ok(())
        } else {
            Err(
                ErrorModel::new(
                    ErrorKind::RequirementFailed,
                    "Table requirement not satisfied".to_owned(),
                ),
            )
        }
    }
}

/// A mutation of the metadata document. `AssignUuid` and `SetLocation` are
/// guarded by this core; the property updates are applied through the
/// aggregate.
#[derive(Debug)]
pub enum TableUpdate {
    AssignUuid { uuid: u128 },
    SetLocation { location: String },
    SetProperties { updates: Properties },
    RemoveProperties { removals: Vec<String> },
}

#[verifier::ext_equal]
pub enum TableUpdateV {
    AssignUuid { uuid: u128 },
    SetLocation { location: Seq<char> },
    SetProperties { updates: Map<Seq<char>, Seq<char>> },
    RemoveProperties { removals: Seq<Seq<char>> },
}

impl View for TableUpdate {
    type V = TableUpdateV;

    open spec fn view(&self) -> TableUpdateV {
        match self {
            TableUpdate::AssignUuid { uuid } => TableUpdateV::AssignUuid { uuid: *uuid },
            TableUpdate::SetLocation { location } => TableUpdateV::SetLocation {
                location: location@,
            },
            TableUpdate::SetProperties { updates } => TableUpdateV::SetProperties {
                updates: updates@,
            },
            TableUpdate::RemoveProperties { removals } => TableUpdateV::RemoveProperties {
                removals: removals.deep_view(),
            },
        }
    }
}

impl DeepView for TableUpdate {
    type V = TableUpdateV;

    open spec fn deep_view(&self) -> TableUpdateV {
        self.view()
    }
}

impl TableUpdate {
    /// The property payload of an update is an association list; its keys
    /// must be unique for its map view to describe it.
    pub open spec fn wf(&self) -> bool {
        match self {
            TableUpdate::SetProperties { updates } => updates.wf(),
            _ => true,
        }
    }
}

/// The first `n` of the listed keys removed from a property map, in order.
pub open spec fn remove_keys_upto(
    m: Map<Seq<char>, Seq<char>>,
    ks: Seq<Seq<char>>,
    n: int,
) -> Map<Seq<char>, Seq<char>>
    decreases n,
{
    if n <= 0 {
        m
    } else {
        remove_keys_upto(m, ks, n - 1).remove(ks[n - 1])
    }
}

/// Remove the listed keys from a property map.
pub open spec fn remove_keys_seq(
    m: Map<Seq<char>, Seq<char>>,
    ks: Seq<Seq<char>>,
) -> Map<Seq<char>, Seq<char>> {
    remove_keys_upto(m, ks, ks.len() as int)
}

/// What one update does to a metadata document: the guarded kinds reject a
/// change of UUID or location and otherwise leave the document unchanged; the
/// property kinds rewrite the property map.
pub open spec fn apply_update(m: TableMetadataV, u: TableUpdateV) -> Result<
    TableMetadataV,
    ErrorKind,
> {
    match u {
        TableUpdateV::AssignUuid { uuid } => if uuid == m.table_uuid {
            Ok(m)
        } else {
            Err(ErrorKind::AssignUuidNotAllowed)
        },
        TableUpdateV::SetLocation { location } => if location == m.location {
            Ok(m)
        } else {
            Err(ErrorKind::SetLocationNotAllowed)
        },
        TableUpdateV::SetProperties { updates } => Ok(
            TableMetadataV { properties: m.properties.union_prefer_right(updates), ..m },
        ),
        TableUpdateV::RemoveProperties { removals } => Ok(
            TableMetadataV { properties: remove_keys_seq(m.properties, removals), ..m },
        ),
    }
}

/// The first `n` updates folded over the document, stopping at the first
/// rejection.
pub open spec fn apply_updates_upto(m: TableMetadataV, us: Seq<TableUpdateV>, n: int) -> Result<
    TableMetadataV,
    ErrorKind,
>
    decreases n,
{
    if n <= 0 {
        Ok(m)
    } else {
        match apply_updates_upto(m, us, n - 1) {
            Ok(m2) => apply_update(m2, us[n - 1]),
            Err(e) => Err(e),
        }
    }
}

/// All updates folded over the document, in order.
pub open spec fn apply_updates(m: TableMetadataV, us: Seq<TableUpdateV>) -> Result<
    TableMetadataV,
    ErrorKind,
> {
    apply_updates_upto(m, us, us.len() as int)
}

/// Folding updates never touches the UUID or the location.
pub proof fn lemma_apply_updates_upto_fixed(m: TableMetadataV, us: Seq<TableUpdateV>, n: int)
    ensures
        apply_updates_upto(m, us, n) matches Ok(m2) ==> m2.table_uuid == m.table_uuid
            && m2.location == m.location && m2.schema == m.schema && m2.partition_specs
            == m.partition_specs && m2.default_spec_idx == m.default_spec_idx && m2.sort_orders
            == m.sort_orders && m2.default_sort_order_idx == m.default_sort_order_idx,
    decreases n,
{
    if n > 0 {
        lemma_apply_updates_upto_fixed(m, us, n - 1);
    }
}

/// A rejection earlier in the fold is the outcome of the whole fold.
pub proof fn lemma_apply_updates_upto_err(m: TableMetadataV, us: Seq<TableUpdateV>, n: int, n2: int)
    requires
        0 <= n <= n2,
        apply_updates_upto(m, us, n) is Err,
    ensures
        apply_updates_upto(m, us, n2) == apply_updates_upto(m, us, n),
    decreases n2 - n,
{
    if n2 > n {
        lemma_apply_updates_upto_err(m, us, n, n2 - 1);
    }
}

} // verus!
