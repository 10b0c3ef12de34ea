use hoover3::data_access::{DataAccessSettings, LocalDiskSettings, S3Settings};
use hoover3::db_schema::{ColumnTypeError, DatabaseColumnType};
use hoover3::datasource::DatasourceSettings;
use std::path::PathBuf;

#[test]
fn scylla_type_names_both_ways() {
    assert_eq!(DatabaseColumnType::from_scylla_type("text"), Ok(DatabaseColumnType::String));
    assert_eq!(DatabaseColumnType::from_scylla_type("BigInt"), Ok(DatabaseColumnType::Int64));
    assert_eq!(DatabaseColumnType::Int32.to_scylla_type(), Ok("INT".to_string()));
    assert_eq!(
        DatabaseColumnType::List(Box::new(DatabaseColumnType::String)).to_scylla_type(),
        Err(ColumnTypeError::IncompatibleWithScylla)
    );
}

#[test]
fn nebula_type_names_both_ways() {
    assert_eq!(DatabaseColumnType::from_nebula_type("int64"), Ok(DatabaseColumnType::Int64));
    assert_eq!(DatabaseColumnType::from_nebula_type("nope"), Err(ColumnTypeError::UnknownNebulaType));
    assert_eq!(DatabaseColumnType::Boolean.to_nebula_type(), Ok("BOOLEAN".to_string()));
    assert_eq!(DatabaseColumnType::Timestamp.to_nebula_type(), Err(ColumnTypeError::IncompatibleWithNebula));
}

#[test]
fn column_types_display() {
    assert_eq!(DatabaseColumnType::Int8.to_display_string(), "Int8");
    assert_eq!(DatabaseColumnType::Other("blob".to_string()).to_display_string(), "Other: blob");
    let t = DatabaseColumnType::Object(vec![
        ("a".to_string(), Box::new(DatabaseColumnType::String)),
        ("b".to_string(), Box::new(DatabaseColumnType::List(Box::new(DatabaseColumnType::Int16)))),
    ]);
    assert_eq!(t.to_display_string(), "Object {\n  a: String,\n  b: List[Int16]\n}");
    assert_eq!(DatabaseColumnType::Object(vec![]).to_display_string(), "Object {\n  \n}");
}

#[test]
fn datasource_type_names() {
    assert_eq!(DatasourceSettings::LocalDisk { path: PathBuf::from("/x") }.type_str(), "LocalDisk");
}

#[test]
fn unknown_scylla_types_are_kept_by_name() {
    assert_eq!(
        DatabaseColumnType::from_scylla_type("uuid"),
        Ok(DatabaseColumnType::Other("UUID".to_string()))
    );
    assert_eq!(DatabaseColumnType::from_scylla_type("varchar"), Ok(DatabaseColumnType::String));
}

#[test]
fn data_access_setters_keep_the_other_backends() {
    let mut s = DataAccessSettings::new();
    assert_eq!(s, DataAccessSettings::default());
    s.set_s3("b".to_string(), "k".to_string(), "SECRET-REDACTED".to_string());
    s.set_local_disk(PathBuf::from("/data"));
    assert_eq!(s.local_disk, Some(LocalDiskSettings { root_path: PathBuf::from("/data") }));
    assert_eq!(
        s.s3,
        Some(S3Settings { bucket: "b".to_string(), access_key: "k".to_string(), secret_key: "SECRET-REDACTED".to_string() })
    );
    assert!(s.webdav.is_none());
}
