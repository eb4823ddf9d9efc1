use iceberg_catalog::catalog::CatalogState;
use iceberg_catalog::error::ErrorKind;
use iceberg_catalog::ident::{
    NamespaceIdent, TableIdent, TabularIdentOwned, TabularIdentRef, TabularIdentUuid, TabularType,
};
use iceberg_catalog::properties::Properties;
use iceberg_catalog::storage::{S3Profile, StorageProfile};
use iceberg_catalog::types::{NextPageToken, PageToken, Prefix};
use iceberg_catalog::uuids::uuid_to_string;
use iceberg_catalog::warehouse::{
    create_warehouse, delete_warehouse, get_warehouse, list_projects, list_warehouses,
    rename_warehouse, update_credential, update_storage,
};

#[test]
fn test_page_token_de() {
    // The three wire states a query-string deserializer distinguishes:
    // a missing key, a key with an empty value, and a cursor.
    assert_eq!(PageToken::from_query_value(None), PageToken::NotSpecified);
    assert_eq!(
        PageToken::from_query_value(Some("123".to_string())),
        PageToken::Present("123".to_string())
    );
    assert_eq!(
        PageToken::from_query_value(Some(String::new())),
        PageToken::Empty
    );

    assert!(PageToken::NotSpecified.is_unspecified());
    assert!(PageToken::NotSpecified.skip_serialize());
    assert!(PageToken::Empty.is_empty());
    assert_eq!(
        PageToken::new_present("123".to_string()),
        PageToken::Present("123".to_string())
    );
    assert_eq!(PageToken::new_present(String::new()), PageToken::Empty);
    assert_eq!(
        PageToken::Present("123".to_string()).to_query_value(),
        Some("123".to_string())
    );
    assert_eq!(PageToken::NotSpecified.to_query_value(), None);
}

#[test]
fn test_next_page_token() {
    assert_eq!(NextPageToken::new_finished(), NextPageToken::Finished);
    assert_eq!(
        NextPageToken::new_not_supported(),
        NextPageToken::NotSupported
    );
    assert_eq!(
        NextPageToken::new_next_token("abc".to_string()),
        NextPageToken::NextToken("abc".to_string())
    );
    assert_eq!(
        NextPageToken::new_next_token(String::new()),
        NextPageToken::Finished
    );
    assert_eq!(
        NextPageToken::new_next_token("null".to_string()),
        NextPageToken::NotSupported
    );
    assert!(NextPageToken::Finished.is_finished());
    assert!(NextPageToken::NotSupported.is_unsupported());
    assert!(NextPageToken::NotSupported.skip_serialize());
    // Finished serializes as the literal string "null"; unsupported is omitted.
    assert_eq!(
        NextPageToken::Finished.to_query_value(),
        Some("null".to_string())
    );
    assert_eq!(NextPageToken::NotSupported.to_query_value(), None);
    assert_eq!(
        NextPageToken::NextToken("abc".to_string()).to_query_value(),
        Some("abc".to_string())
    );
}

#[test]
fn test_prefix() {
    let p = Prefix::new("my_warehouse".to_string());
    assert_eq!(p.as_str(), "my_warehouse");
    assert_eq!(p.into_string(), "my_warehouse".to_string());
}

#[test]
fn test_de_create_warehouse_request() {
    // The same request the kebab-case wire form carries, built by value.
    let request = iceberg_catalog::warehouse::CreateWarehouseRequest {
        warehouse_name: "test_warehouse".to_string(),
        project_id: uuid::Uuid::parse_str("f47ac10b-58cc-4372-a567-0e02b2c3d479")
            .unwrap()
            .as_u128(),
        storage_profile: StorageProfile::S3(S3Profile {
            bucket: "test".to_string(),
            region: "dummy".to_string(),
            path_style_access: Some(true),
            endpoint: Some("http://localhost:9000".to_string()),
        }),
        storage_credential: Some(
            iceberg_catalog::storage::StorageCredential::S3AccessKey {
                aws_access_key_id: "test-access-key-id".to_string(),
                aws_secret_access_key: "test-secret-access-key".to_string(),
            },
        ),
    };
    assert_eq!(request.warehouse_name, "test_warehouse");
    assert_eq!(
        request.project_id,
        uuid::Uuid::parse_str("f47ac10b-58cc-4372-a567-0e02b2c3d479")
            .unwrap()
            .as_u128()
    );
    let s3_profile = request.storage_profile.try_into_s3(409).unwrap();
    assert_eq!(s3_profile.bucket, "test");
    assert_eq!(s3_profile.region, "dummy");
    assert_eq!(s3_profile.path_style_access, Some(true));
}

#[test]
fn test_error_codes() {
    assert_eq!(ErrorKind::TooManyTables.code(), 400);
    assert_eq!(ErrorKind::TooManyTablesForCommit.code(), 400);
    assert_eq!(ErrorKind::NoSuchTableError.code(), 404);
    assert_eq!(ErrorKind::TableStaged.code(), 404);
    assert_eq!(ErrorKind::TableAlreadyExists.code(), 409);
    assert_eq!(ErrorKind::CreateTableLocationRequired.code(), 409);
    assert_eq!(ErrorKind::AssignUuidNotAllowed.code(), 400);
    assert_eq!(ErrorKind::SetLocationNotAllowed.code(), 400);
    assert_eq!(ErrorKind::CommitTableUpdateError.code(), 500);
    assert_eq!(ErrorKind::RenameTableIdOrNamespaceNotFound.code(), 404);
    assert_eq!(ErrorKind::NamespaceParseError.code(), 500);
}

#[test]
fn test_properties_map() {
    let mut p = Properties::new();
    assert_eq!(p.len(), 0);
    p.insert("a".to_string(), "1".to_string());
    p.insert("b".to_string(), "2".to_string());
    assert_eq!(p.len(), 2);
    assert_eq!(p.get(&"a".to_string()), Some(&"1".to_string()));
    // Later values win.
    p.insert("a".to_string(), "3".to_string());
    assert_eq!(p.len(), 2);
    assert_eq!(p.get(&"a".to_string()), Some(&"3".to_string()));
    p.remove(&"a".to_string());
    assert_eq!(p.len(), 1);
    assert_eq!(p.get(&"a".to_string()), None);
    assert_eq!(p.get(&"b".to_string()), Some(&"2".to_string()));
}

#[test]
fn test_namespace_ident() {
    assert!(NamespaceIdent::from_vec(vec![]).is_err());
    let a = NamespaceIdent::from_vec(vec!["accounting".to_string(), "tax".to_string()]).unwrap();
    let b = NamespaceIdent::from_vec(vec!["accounting".to_string(), "tax".to_string()]).unwrap();
    let c = NamespaceIdent::from_vec(vec!["accounting".to_string()]).unwrap();
    assert_eq!(a, b);
    assert_ne!(a, c);
    assert_eq!(a.parts().len(), 2);
}

#[test]
fn test_tabular_idents() {
    let ident = TableIdent {
        namespace: NamespaceIdent::from_vec(vec!["ns".to_string()]).unwrap(),
        name: "t".to_string(),
    };
    let owned = TabularIdentOwned::Table(ident.clone());
    assert_eq!(owned.into_inner(), ident);

    let as_ref = TabularIdentRef::Table(&ident);
    assert_eq!(as_ref.to_table_ident_tuple(), &ident);
    assert_eq!(as_ref.tabular_type(), TabularType::Table);
    let owned2 = as_ref.to_owned_ident();
    assert_eq!(owned2.into_inner(), ident);

    let id = TabularIdentUuid::View(7);
    assert_eq!(id.id(), 7);
    assert_eq!(TabularType::from(id), TabularType::View);
    assert_eq!(
        TabularType::from(TabularIdentUuid::Table(9)),
        TabularType::Table
    );
}

#[test]
fn test_metadata_location_naming() {
    // The new metadata file lives under the table root, named by the minted
    // id in hyphenated form.
    let profile = StorageProfile::S3(S3Profile {
        bucket: "b".to_string(),
        region: "r".to_string(),
        path_style_access: None,
        endpoint: None,
    });
    assert_eq!(uuid_to_string(0), "00000000-0000-0000-0000-000000000000");
    let loc = profile.metadata_location(&"s3://b/t".to_string(), &uuid_to_string(0));
    assert_eq!(
        loc,
        "s3://b/t/metadata/00000000-0000-0000-0000-000000000000.metadata.json"
    );
}

#[test]
fn test_warehouse_management() {
    let mut state = CatalogState::new();
    let project_id = 42u128;
    let profile = StorageProfile::S3(S3Profile {
        bucket: "b".to_string(),
        region: "r".to_string(),
        path_style_access: None,
        endpoint: None,
    });
    let resp = create_warehouse(
        &mut state,
        "wh".to_string(),
        project_id,
        profile.clone(),
        Some(7),
    )
    .unwrap();

    // A second warehouse under the same name in the same project conflicts.
    let err = create_warehouse(&mut state, "wh".to_string(), project_id, profile.clone(), None)
        .unwrap_err();
    assert_eq!(err.code(), 409);

    assert_eq!(list_projects(&state).project_ids, vec![project_id]);
    let listed = list_warehouses(&state, project_id, false).warehouses;
    assert_eq!(listed.len(), 1);
    assert_eq!(listed[0].id, resp.warehouse_id);
    assert_eq!(listed[0].status, "active");

    rename_warehouse(&mut state, resp.warehouse_id, "wh2".to_string()).unwrap();
    assert_eq!(get_warehouse(&state, resp.warehouse_id).unwrap().name, "wh2");

    // Swapping the credential returns the previous handle.
    let old = update_credential(&mut state, resp.warehouse_id, Some(9)).unwrap();
    assert_eq!(old, Some(7));
    let old = update_storage(&mut state, resp.warehouse_id, profile, None).unwrap();
    assert_eq!(old, Some(9));

    // Soft delete: the warehouse is inactive, not gone.
    delete_warehouse(&mut state, resp.warehouse_id).unwrap();
    assert_eq!(
        get_warehouse(&state, resp.warehouse_id).unwrap().status,
        "inactive"
    );
    assert_eq!(list_warehouses(&state, project_id, false).warehouses.len(), 0);
    assert_eq!(list_warehouses(&state, project_id, true).warehouses.len(), 1);
}
