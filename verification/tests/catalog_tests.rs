use iceberg_catalog::error::ErrorKind;
use iceberg_catalog::catalog::CatalogState;
use iceberg_catalog::commit::{CommitTableRequest, CommitTransactionRequest};
use iceberg_catalog::ident::{NamespaceIdent, TableIdent};
use iceberg_catalog::metadata::{
    NestedField, PrimitiveType, Schema, TableRequirement, TableUpdate, UnboundPartitionSpec,
};
use iceberg_catalog::namespace::{create_namespace, namespace_ident_to_id};
use iceberg_catalog::properties::Properties;
use iceberg_catalog::storage::{S3Profile, StorageProfile};
use iceberg_catalog::table::{
    create_table, drop_table, get_table_metadata_by_id, get_table_metadata_by_s3_location,
    list_tables, load_table, rename_table, table_ident_to_id, table_idents_to_ids,
    CreateTableRequest,
};
use iceberg_catalog::uuids::mint_uuid_v7;
use iceberg_catalog::warehouse::create_warehouse;

fn s3_profile() -> StorageProfile {
    StorageProfile::S3(S3Profile {
        bucket: "test".to_string(),
        region: "dummy".to_string(),
        path_style_access: Some(true),
        endpoint: Some("http://localhost:9000".to_string()),
    })
}

fn initialize_warehouse(state: &mut CatalogState) -> u128 {
    let project_id = mint_uuid_v7();
    create_warehouse(
        state,
        "test_warehouse".to_string(),
        project_id,
        s3_profile(),
        None,
    )
    .unwrap()
    .warehouse_id
}

fn ns_ident(parts: Vec<&str>) -> NamespaceIdent {
    NamespaceIdent::from_vec(parts.iter().map(|p| p.to_string()).collect()).unwrap()
}

fn create_request(stage_create: Option<bool>) -> (CreateTableRequest, Option<String>) {
    let metadata_location = if let Some(stage_create) = stage_create {
        if stage_create {
            None
        } else {
            Some("s3://my_bucket/my_table/metadata/foo".to_string())
        }
    } else {
        Some("s3://my_bucket/my_table/metadata/bar".to_string())
    };

    (
        CreateTableRequest {
            name: "my_table".to_string(),
            location: Some("s3://my_bucket/my_table".to_string()),
            schema: Schema::new(
                0,
                vec![
                    NestedField::required(1, "id".to_string(), PrimitiveType::Int),
                    NestedField::required(1, "name".to_string(), PrimitiveType::String),
                ],
            ),
            partition_spec: Some(UnboundPartitionSpec {
                spec_id: None,
                fields: vec![],
            }),
            write_order: None,
            stage_create,
            properties: None,
        },
        metadata_location,
    )
}

struct InitializedTable {
    namespace: NamespaceIdent,
    table_id: u128,
    table_ident: TableIdent,
}

fn initialize_table(warehouse_id: u128, state: &mut CatalogState, staged: bool) -> InitializedTable {
    let namespace = ns_ident(vec![&format!("my_namespace_{}", mint_uuid_v7())]);
    let namespace_id =
        create_namespace(state, warehouse_id, namespace.clone(), Properties::new()).unwrap();

    let (request, metadata_location) = create_request(Some(staged));
    let table_ident = TableIdent {
        namespace: namespace.clone(),
        name: request.name.clone(),
    };

    let table_id = mint_uuid_v7();
    let _create_result = create_table(
        state,
        namespace_id,
        &table_ident,
        table_id,
        request,
        metadata_location,
    )
    .unwrap();

    InitializedTable {
        namespace,
        table_id,
        table_ident,
    }
}

#[test]
fn test_final_create() {
    let mut state = CatalogState::new();
    let warehouse_id = initialize_warehouse(&mut state);
    let namespace = ns_ident(vec!["my_namespace"]);
    let namespace_id =
        create_namespace(&mut state, warehouse_id, namespace.clone(), Properties::new()).unwrap();

    let (request, metadata_location) = create_request(None);
    let table_ident = TableIdent {
        namespace: namespace.clone(),
        name: request.name.clone(),
    };

    let table_id = mint_uuid_v7();
    let create_result = create_table(
        &mut state,
        namespace_id,
        &table_ident,
        table_id,
        request,
        metadata_location.clone(),
    )
    .unwrap();

    // Second create should fail
    let (request, metadata_location2) = create_request(None);
    let table_id2 = mint_uuid_v7();
    let create_err = create_table(
        &mut state,
        namespace_id,
        &table_ident,
        table_id2,
        request,
        metadata_location2,
    )
    .unwrap_err();
    assert_eq!(create_err.code(), 409);

    // Load should succeed
    let load_result = load_table(&state, warehouse_id, &table_ident).unwrap();
    assert_eq!(
        load_result.table_metadata.uuid(),
        create_result.table_metadata.uuid()
    );
    assert_eq!(
        load_result.table_metadata.location,
        create_result.table_metadata.location
    );
    assert_eq!(load_result.metadata_location, metadata_location);
}

#[test]
fn test_stage_create() {
    let mut state = CatalogState::new();
    let warehouse_id = initialize_warehouse(&mut state);
    let namespace = ns_ident(vec!["my_namespace"]);
    let namespace_id =
        create_namespace(&mut state, warehouse_id, namespace.clone(), Properties::new()).unwrap();

    let (request, metadata_location) = create_request(Some(true));
    let table_ident = TableIdent {
        namespace: namespace.clone(),
        name: request.name.clone(),
    };

    let table_id = mint_uuid_v7();
    let _create_result = create_table(
        &mut state,
        namespace_id,
        &table_ident,
        table_id,
        request,
        metadata_location,
    )
    .unwrap();

    // Load should fail
    let load_err = load_table(&state, warehouse_id, &table_ident).unwrap_err();
    assert_eq!(load_err.code(), 404);

    // Second create (staged again) should succeed
    let (request, metadata_location) = create_request(Some(true));
    let table_id = mint_uuid_v7();
    let _create_result = create_table(
        &mut state,
        namespace_id,
        &table_ident,
        table_id,
        request,
        metadata_location,
    )
    .unwrap();

    // We can overwrite the table with a regular create
    let (request, metadata_location) = create_request(Some(false));
    let create_result = create_table(
        &mut state,
        namespace_id,
        &table_ident,
        table_id,
        request,
        metadata_location,
    )
    .unwrap();

    let load_result = load_table(&state, warehouse_id, &table_ident).unwrap();
    assert_eq!(
        load_result.table_metadata.uuid(),
        create_result.table_metadata.uuid()
    );
    assert_eq!(
        load_result.table_metadata.location,
        create_result.table_metadata.location
    );
}

#[test]
fn test_to_id() {
    let mut state = CatalogState::new();
    let warehouse_id = initialize_warehouse(&mut state);
    let namespace = ns_ident(vec!["my_namespace"]);
    let _ = create_namespace(&mut state, warehouse_id, namespace.clone(), Properties::new())
        .unwrap();

    let table_ident = TableIdent {
        namespace: namespace.clone(),
        name: "my_table".to_string(),
    };

    let exists = table_ident_to_id(&state, warehouse_id, &table_ident, false);
    assert!(exists.is_none());
    drop(table_ident);

    let table = initialize_table(warehouse_id, &mut state, true);

    // Table is staged - no result if include_staged is false
    let exists = table_ident_to_id(&state, warehouse_id, &table.table_ident, false);
    assert!(exists.is_none());

    let exists = table_ident_to_id(&state, warehouse_id, &table.table_ident, true);
    assert_eq!(exists, Some(table.table_id));
}

#[test]
fn test_to_ids() {
    let mut state = CatalogState::new();
    let warehouse_id = initialize_warehouse(&mut state);
    let namespace = ns_ident(vec!["my_namespace"]);
    let _ = create_namespace(&mut state, warehouse_id, namespace.clone(), Properties::new())
        .unwrap();

    let table_ident = TableIdent {
        namespace: namespace.clone(),
        name: "my_table".to_string(),
    };

    let exists =
        table_idents_to_ids(&state, warehouse_id, &vec![table_ident.clone()], false).unwrap();
    assert!(exists.len() == 1 && exists[0].1.is_none());
    drop(table_ident);

    let table_1 = initialize_table(warehouse_id, &mut state, true);
    let tables = vec![table_1.table_ident.clone()];

    // Table is staged - no result if include_staged is false
    let exists = table_idents_to_ids(&state, warehouse_id, &tables, false).unwrap();
    assert_eq!(exists.len(), 1);
    assert!(exists[0].1.is_none());

    let exists = table_idents_to_ids(&state, warehouse_id, &tables, true).unwrap();
    assert_eq!(exists.len(), 1);
    assert_eq!(exists[0].1, Some(table_1.table_id));

    // Second Table
    let table_2 = initialize_table(warehouse_id, &mut state, false);
    let tables = vec![table_1.table_ident.clone(), table_2.table_ident.clone()];

    let exists = table_idents_to_ids(&state, warehouse_id, &tables, false).unwrap();
    assert_eq!(exists.len(), 2);
    assert!(exists[0].1.is_none());
    assert_eq!(exists[1].1, Some(table_2.table_id));

    let exists = table_idents_to_ids(&state, warehouse_id, &tables, true).unwrap();
    assert_eq!(exists.len(), 2);
    assert_eq!(exists[0].1, Some(table_1.table_id));
    assert_eq!(exists[1].1, Some(table_2.table_id));
}

#[test]
fn test_rename_without_namespace() {
    let mut state = CatalogState::new();
    let warehouse_id = initialize_warehouse(&mut state);
    let table = initialize_table(warehouse_id, &mut state, false);

    let new_table_ident = TableIdent {
        namespace: table.namespace.clone(),
        name: "new_table".to_string(),
    };

    rename_table(
        &mut state,
        warehouse_id,
        table.table_id,
        &table.table_ident,
        &new_table_ident,
    )
    .unwrap();

    let exists = table_ident_to_id(&state, warehouse_id, &table.table_ident, false);
    assert!(exists.is_none());

    let exists = table_ident_to_id(&state, warehouse_id, &new_table_ident, false);
    // Table id should be the same
    assert_eq!(exists, Some(table.table_id));
}

#[test]
fn test_rename_with_namespace() {
    let mut state = CatalogState::new();
    let warehouse_id = initialize_warehouse(&mut state);
    let table = initialize_table(warehouse_id, &mut state, false);

    let new_namespace = ns_ident(vec!["new_namespace"]);
    let _ = create_namespace(
        &mut state,
        warehouse_id,
        new_namespace.clone(),
        Properties::new(),
    )
    .unwrap();

    let new_table_ident = TableIdent {
        namespace: new_namespace.clone(),
        name: "new_table".to_string(),
    };

    rename_table(
        &mut state,
        warehouse_id,
        table.table_id,
        &table.table_ident,
        &new_table_ident,
    )
    .unwrap();

    let exists = table_ident_to_id(&state, warehouse_id, &table.table_ident, false);
    assert!(exists.is_none());

    let exists = table_ident_to_id(&state, warehouse_id, &new_table_ident, false);
    assert_eq!(exists, Some(table.table_id));
}

#[test]
fn test_list_tables() {
    let mut state = CatalogState::new();
    let warehouse_id = initialize_warehouse(&mut state);
    let namespace = ns_ident(vec!["my_namespace"]);
    let _ = create_namespace(&mut state, warehouse_id, namespace.clone(), Properties::new())
        .unwrap();
    let tables = list_tables(&state, warehouse_id, &namespace, false);
    assert_eq!(tables.len(), 0);

    let table1 = initialize_table(warehouse_id, &mut state, false);

    let tables = list_tables(&state, warehouse_id, &table1.namespace, false);
    assert_eq!(tables.len(), 1);
    assert_eq!(tables[0].0, table1.table_id);
    assert_eq!(tables[0].1, table1.table_ident);

    let table2 = initialize_table(warehouse_id, &mut state, true);
    let tables = list_tables(&state, warehouse_id, &table2.namespace, false);
    assert_eq!(tables.len(), 0);
    let tables = list_tables(&state, warehouse_id, &table2.namespace, true);
    assert_eq!(tables.len(), 1);
    assert_eq!(tables[0].0, table2.table_id);
    assert_eq!(tables[0].1, table2.table_ident);
}

fn set_properties_update(key: &str, value: &str) -> TableUpdate {
    let mut updates = Properties::new();
    updates.insert(key.to_string(), value.to_string());
    TableUpdate::SetProperties { updates }
}

#[test]
fn test_commit_transaction() {
    let mut state = CatalogState::new();
    let warehouse_id = initialize_warehouse(&mut state);
    let table1 = initialize_table(warehouse_id, &mut state, true);
    let table2 = initialize_table(warehouse_id, &mut state, false);

    let request = CommitTransactionRequest {
        table_changes: vec![
            CommitTableRequest {
                identifier: Some(table1.table_ident.clone()),
                requirements: vec![TableRequirement::NotExist],
                updates: vec![set_properties_update("t1_key", "t1_value")],
            },
            CommitTableRequest {
                identifier: Some(table2.table_ident.clone()),
                requirements: vec![TableRequirement::UuidMatch {
                    uuid: table2.table_id,
                }],
                updates: vec![set_properties_update("t2_key", "t2_value")],
            },
        ],
    };

    let idents = vec![table1.table_ident.clone(), table2.table_ident.clone()];
    let table_ids: Vec<(TableIdent, u128)> =
        table_idents_to_ids(&state, warehouse_id, &idents, true)
            .unwrap()
            .into_iter()
            .map(|(k, v)| (k, v.unwrap()))
            .collect();

    let responses =
        commit_table_transaction_helper(&mut state, warehouse_id, request, &table_ids);

    assert_eq!(responses.len(), 2);

    let response1 = responses
        .iter()
        .find(|r| r.commit_response.metadata.uuid() == table1.table_id)
        .unwrap();
    let response2 = responses
        .iter()
        .find(|r| r.commit_response.metadata.uuid() == table2.table_id)
        .unwrap();

    assert_eq!(response1.commit_response.metadata.properties.len(), 1);
    assert_eq!(
        response1
            .commit_response
            .metadata
            .properties
            .get(&"t1_key".to_string()),
        Some(&"t1_value".to_string())
    );
    assert_eq!(response2.commit_response.metadata.properties.len(), 1);
    assert_eq!(
        response2
            .commit_response
            .metadata
            .properties
            .get(&"t2_key".to_string()),
        Some(&"t2_value".to_string())
    );
}

fn commit_table_transaction_helper(
    state: &mut CatalogState,
    warehouse_id: u128,
    request: CommitTransactionRequest,
    table_ids: &Vec<(TableIdent, u128)>,
) -> Vec<iceberg_catalog::commit::CommitTableResponseExt> {
    iceberg_catalog::commit::commit_table_transaction(state, warehouse_id, request, table_ids)
        .unwrap()
}

#[test]
fn test_commit_requirement_failure_aborts() {
    // Both tables committed: NotExist fails on table1, so the whole
    // transaction aborts and neither table's properties change.
    let mut state = CatalogState::new();
    let warehouse_id = initialize_warehouse(&mut state);
    let table1 = initialize_table(warehouse_id, &mut state, false);
    let table2 = initialize_table(warehouse_id, &mut state, false);

    let request = CommitTransactionRequest {
        table_changes: vec![
            CommitTableRequest {
                identifier: Some(table1.table_ident.clone()),
                requirements: vec![TableRequirement::NotExist],
                updates: vec![set_properties_update("t1_key", "t1_value")],
            },
            CommitTableRequest {
                identifier: Some(table2.table_ident.clone()),
                requirements: vec![TableRequirement::UuidMatch {
                    uuid: table2.table_id,
                }],
                updates: vec![set_properties_update("t2_key", "t2_value")],
            },
        ],
    };

    let idents = vec![table1.table_ident.clone(), table2.table_ident.clone()];
    let table_ids: Vec<(TableIdent, u128)> =
        table_idents_to_ids(&state, warehouse_id, &idents, true)
            .unwrap()
            .into_iter()
            .map(|(k, v)| (k, v.unwrap()))
            .collect();

    let err = iceberg_catalog::commit::commit_table_transaction(
        &mut state,
        warehouse_id,
        request,
        &table_ids,
    )
    .unwrap_err();
    assert_eq!(err.code(), 409);

    // Neither table changed.
    let load1 = load_table(&state, warehouse_id, &table1.table_ident).unwrap();
    assert_eq!(load1.table_metadata.properties.len(), 0);
    let load2 = load_table(&state, warehouse_id, &table2.table_ident).unwrap();
    assert_eq!(load2.table_metadata.properties.len(), 0);

    // With the requirement replaced by a UuidMatch, both commits go through.
    let request = CommitTransactionRequest {
        table_changes: vec![
            CommitTableRequest {
                identifier: Some(table1.table_ident.clone()),
                requirements: vec![TableRequirement::UuidMatch {
                    uuid: table1.table_id,
                }],
                updates: vec![set_properties_update("t1_key", "t1_value")],
            },
            CommitTableRequest {
                identifier: Some(table2.table_ident.clone()),
                requirements: vec![TableRequirement::UuidMatch {
                    uuid: table2.table_id,
                }],
                updates: vec![set_properties_update("t2_key", "t2_value")],
            },
        ],
    };
    let responses = commit_table_transaction_helper(&mut state, warehouse_id, request, &table_ids);
    assert_eq!(responses.len(), 2);
    let load1 = load_table(&state, warehouse_id, &table1.table_ident).unwrap();
    assert_eq!(
        load1.table_metadata.properties.get(&"t1_key".to_string()),
        Some(&"t1_value".to_string())
    );
    let load2 = load_table(&state, warehouse_id, &table2.table_ident).unwrap();
    assert_eq!(
        load2.table_metadata.properties.get(&"t2_key".to_string()),
        Some(&"t2_value".to_string())
    );
}

#[test]
fn test_get_metadata_by_location() {
    let mut state = CatalogState::new();
    let warehouse_id = initialize_warehouse(&mut state);
    let table = initialize_table(warehouse_id, &mut state, false);

    let metadata = get_table_metadata_by_id(&state, warehouse_id, table.table_id, false).unwrap();

    // Exact path works
    let metadata =
        get_table_metadata_by_s3_location(&state, warehouse_id, &metadata.location, false)
            .unwrap();

    assert_eq!(metadata.table, table.table_ident);
    assert_eq!(metadata.table_id, table.table_id);

    // Subpath works
    let subpath = format!("{}/data/foo.parquet", &metadata.location);
    let _ = get_table_metadata_by_s3_location(&state, warehouse_id, &subpath, false).unwrap();

    // Shorter path does not work
    let shorter = metadata.location[0..metadata.location.len() - 1].to_string();
    get_table_metadata_by_s3_location(&state, warehouse_id, &shorter, false).unwrap_err();
}

#[test]
fn test_commit_guards() {
    // AssignUuid to a different value and SetLocation to a different value
    // are rejected as bad requests; matching values are accepted as no-ops.
    let mut state = CatalogState::new();
    let warehouse_id = initialize_warehouse(&mut state);
    let table = initialize_table(warehouse_id, &mut state, false);

    let table_ids = vec![(table.table_ident.clone(), table.table_id)];

    let request = CommitTransactionRequest {
        table_changes: vec![CommitTableRequest {
            identifier: Some(table.table_ident.clone()),
            requirements: vec![],
            updates: vec![TableUpdate::AssignUuid {
                uuid: table.table_id.wrapping_add(1),
            }],
        }],
    };
    let err = iceberg_catalog::commit::commit_table_transaction(
        &mut state,
        warehouse_id,
        request,
        &table_ids,
    )
    .unwrap_err();
    assert_eq!(err.code(), 400);

    let request = CommitTransactionRequest {
        table_changes: vec![CommitTableRequest {
            identifier: Some(table.table_ident.clone()),
            requirements: vec![],
            updates: vec![TableUpdate::SetLocation {
                location: "s3://somewhere_else".to_string(),
            }],
        }],
    };
    let err = iceberg_catalog::commit::commit_table_transaction(
        &mut state,
        warehouse_id,
        request,
        &table_ids,
    )
    .unwrap_err();
    assert_eq!(err.code(), 400);

    // Matching values pass.
    let request = CommitTransactionRequest {
        table_changes: vec![CommitTableRequest {
            identifier: Some(table.table_ident.clone()),
            requirements: vec![],
            updates: vec![
                TableUpdate::AssignUuid {
                    uuid: table.table_id,
                },
                TableUpdate::SetLocation {
                    location: "s3://my_bucket/my_table".to_string(),
                },
            ],
        }],
    };
    let responses = commit_table_transaction_helper(&mut state, warehouse_id, request, &table_ids);
    assert_eq!(responses.len(), 1);
    assert_eq!(responses[0].commit_response.metadata.uuid(), table.table_id);
}

#[test]
fn test_create_requires_location() {
    let mut state = CatalogState::new();
    let warehouse_id = initialize_warehouse(&mut state);
    let namespace = ns_ident(vec!["my_namespace"]);
    let namespace_id =
        create_namespace(&mut state, warehouse_id, namespace.clone(), Properties::new()).unwrap();

    let (mut request, metadata_location) = create_request(None);
    request.location = None;
    let table_ident = TableIdent {
        namespace,
        name: request.name.clone(),
    };
    let err = create_table(
        &mut state,
        namespace_id,
        &table_ident,
        mint_uuid_v7(),
        request,
        metadata_location,
    )
    .unwrap_err();
    assert_eq!(err.code(), 409);
}

#[test]
fn test_warehouse_gating() {
    // Deactivating the warehouse makes every read and write under it fail;
    // activating it brings them back.
    let mut state = CatalogState::new();
    let warehouse_id = initialize_warehouse(&mut state);
    let table = initialize_table(warehouse_id, &mut state, false);

    assert!(table_ident_to_id(&state, warehouse_id, &table.table_ident, false).is_some());

    iceberg_catalog::warehouse::deactivate_warehouse(&mut state, warehouse_id).unwrap();
    assert!(table_ident_to_id(&state, warehouse_id, &table.table_ident, false).is_none());
    assert_eq!(
        load_table(&state, warehouse_id, &table.table_ident)
            .unwrap_err()
            .code(),
        404
    );

    iceberg_catalog::warehouse::activate_warehouse(&mut state, warehouse_id).unwrap();
    assert_eq!(
        table_ident_to_id(&state, warehouse_id, &table.table_ident, false),
        Some(table.table_id)
    );
}

#[test]
fn test_drop_table_and_namespace() {
    let mut state = CatalogState::new();
    let warehouse_id = initialize_warehouse(&mut state);
    let table = initialize_table(warehouse_id, &mut state, false);

    // A namespace holding a live table cannot be dropped.
    let err = iceberg_catalog::namespace::drop_namespace(&mut state, warehouse_id, &table.namespace)
        .unwrap_err();
    assert_eq!(err.code(), 409);

    drop_table(&mut state, table.table_id).unwrap();
    assert!(table_ident_to_id(&state, warehouse_id, &table.table_ident, true).is_none());
    let err = drop_table(&mut state, table.table_id).unwrap_err();
    assert_eq!(err.code(), 404);

    // Empty now: the drop goes through.
    iceberg_catalog::namespace::drop_namespace(&mut state, warehouse_id, &table.namespace).unwrap();
    assert!(namespace_ident_to_id(&state, warehouse_id, &table.namespace).is_none());
}

#[test]
fn test_too_many_tables() {
    let state = CatalogState::new();
    let warehouse_id = mint_uuid_v7();
    let mut idents: Vec<TableIdent> = Vec::new();
    for i in 0..15001 {
        idents.push(TableIdent {
            namespace: ns_ident(vec!["ns"]),
            name: format!("t{}", i),
        });
    }
    let err = table_idents_to_ids(&state, warehouse_id, &idents, false).unwrap_err();
    assert_eq!(err.code(), 400);
}

#[test]
fn test_error_variants() {
    let mut state = CatalogState::new();
    let warehouse_id = initialize_warehouse(&mut state);
    let table = initialize_table(warehouse_id, &mut state, true);

    // A staged table looked up by id without opting in is reported staged.
    let err = get_table_metadata_by_id(&state, warehouse_id, table.table_id, false).unwrap_err();
    assert_eq!(err.kind, ErrorKind::TableStaged);

    // Renaming a table id that does not exist.
    let err = rename_table(
        &mut state,
        warehouse_id,
        table.table_id.wrapping_add(1),
        &table.table_ident,
        &TableIdent {
            namespace: table.namespace.clone(),
            name: "other".to_string(),
        },
    )
    .unwrap_err();
    assert_eq!(err.kind, ErrorKind::RenameTableIdNotFound);

    // Renaming into a namespace that does not exist.
    let err = rename_table(
        &mut state,
        warehouse_id,
        table.table_id,
        &table.table_ident,
        &TableIdent {
            namespace: ns_ident(vec!["no_such_namespace"]),
            name: "other".to_string(),
        },
    )
    .unwrap_err();
    assert_eq!(err.kind, ErrorKind::RenameTableIdOrNamespaceNotFound);

    // A change without an identifier, and one whose identifier was not
    // resolved.
    let table_ids = vec![(table.table_ident.clone(), table.table_id)];
    let request = CommitTransactionRequest {
        table_changes: vec![CommitTableRequest {
            identifier: None,
            requirements: vec![],
            updates: vec![],
        }],
    };
    let err = iceberg_catalog::commit::commit_table_transaction(
        &mut state,
        warehouse_id,
        request,
        &table_ids,
    )
    .unwrap_err();
    assert_eq!(err.kind, ErrorKind::TableIdentifierRequired);

    let stranger = TableIdent {
        namespace: table.namespace.clone(),
        name: "stranger".to_string(),
    };
    let request = CommitTransactionRequest {
        table_changes: vec![CommitTableRequest {
            identifier: Some(stranger),
            requirements: vec![],
            updates: vec![],
        }],
    };
    let err = iceberg_catalog::commit::commit_table_transaction(
        &mut state,
        warehouse_id,
        request,
        &table_ids,
    )
    .unwrap_err();
    assert_eq!(err.kind, ErrorKind::TableIdentifierNotFound);

    // Two changes naming the same table cannot be committed atomically.
    let request = CommitTransactionRequest {
        table_changes: vec![
            CommitTableRequest {
                identifier: Some(table.table_ident.clone()),
                requirements: vec![],
                updates: vec![],
            },
            CommitTableRequest {
                identifier: Some(table.table_ident.clone()),
                requirements: vec![],
                updates: vec![],
            },
        ],
    };
    let err = iceberg_catalog::commit::commit_table_transaction(
        &mut state,
        warehouse_id,
        request,
        &table_ids,
    )
    .unwrap_err();
    assert_eq!(err.kind, ErrorKind::CommitTableUpdateError);

    // Creating a namespace twice conflicts; a missing warehouse is refused.
    let err = create_namespace(
        &mut state,
        warehouse_id,
        table.namespace.clone(),
        Properties::new(),
    )
    .unwrap_err();
    assert_eq!(err.kind, ErrorKind::NamespaceAlreadyExists);
    let err = create_namespace(
        &mut state,
        warehouse_id.wrapping_add(1),
        ns_ident(vec!["elsewhere"]),
        Properties::new(),
    )
    .unwrap_err();
    assert_eq!(err.kind, ErrorKind::WarehouseInactive);
    let err = iceberg_catalog::namespace::drop_namespace(
        &mut state,
        warehouse_id,
        &ns_ident(vec!["no_such_namespace"]),
    )
    .unwrap_err();
    assert_eq!(err.kind, ErrorKind::NamespaceNotFound);

    // A missing warehouse cannot be fetched.
    let err = iceberg_catalog::warehouse::get_warehouse(&state, warehouse_id.wrapping_add(1))
        .unwrap_err();
    assert_eq!(err.kind, ErrorKind::WarehouseNotFound);

    // An empty vector is not a namespace name.
    let err = iceberg_catalog::ident::NamespaceIdent::from_vec(vec![]).unwrap_err();
    assert_eq!(err.kind, ErrorKind::NamespaceParseError);
}
