use hoover3::identifier::{CollectionId, DatabaseIdentifier, IdentifierError};

#[test]
fn test_db_identifier_regex() {
    assert!(DatabaseIdentifier::new("system").is_err());
    assert!(DatabaseIdentifier::new("XXX").is_err());
    assert!(DatabaseIdentifier::new("systom").is_ok());
    assert!(DatabaseIdentifier::new("aaaa").is_ok());
    assert!(DatabaseIdentifier::new("1111aaa").is_err());
    assert!(DatabaseIdentifier::new("aaaaaaaaaaaaaaaaaaaaaaaaaaaaaaaaaaaaaaaaaaaaaaaaa").is_err()); // len = 49
    assert!(DatabaseIdentifier::new("aaaaaaaaaaaaaaaaaaaaaaaaaaaaaaaaaaaaaaaaaaaaaaaa").is_ok()); // len = 48
    assert!(DatabaseIdentifier::new("something_something_123").is_ok());
    assert!(DatabaseIdentifier::new("xxx").unwrap().to_string() == "xxx");
}

#[test]
fn database_identifier_errors_name_the_first_failed_rule() {
    assert_eq!(DatabaseIdentifier::new("ab"), Err(IdentifierError::BadLength));
    assert_eq!(DatabaseIdentifier::new("1abc"), Err(IdentifierError::BadFirstLetter));
    assert_eq!(DatabaseIdentifier::new("systemx"), Err(IdentifierError::ReservedPrefix));
    assert_eq!(DatabaseIdentifier::new("XXX"), Err(IdentifierError::PatternMismatch));
    assert_eq!(DatabaseIdentifier::new("ab-c"), Err(IdentifierError::PatternMismatch));
    assert_eq!(DatabaseIdentifier::new("éab"), Err(IdentifierError::BadFirstLetter));
    assert_eq!(DatabaseIdentifier::new("aé"), Err(IdentifierError::PatternMismatch));
}

#[test]
fn collection_id_rules() {
    assert!(CollectionId::new("my_collection").is_ok());
    assert_eq!(CollectionId::new("ab"), Err(IdentifierError::BadLength));
    assert_eq!(CollectionId::new("a__b"), Err(IdentifierError::DoubleUnderscore));
    assert_eq!(CollectionId::new("ab-c"), Err(IdentifierError::NotAlphanumeric));
    assert_eq!(CollectionId::new("Abc"), Err(IdentifierError::PatternMismatch));
    assert_eq!(CollectionId::new("abcé"), Err(IdentifierError::PatternMismatch));
    assert_eq!(
        CollectionId::new("aaaaaaaaaaaaaaaaaaaaaaaaaaaaaaaaa"),
        Err(IdentifierError::BadLength)
    );
    let c = CollectionId::new("test_datasource_query").unwrap();
    assert_eq!(c.to_string(), "test_datasource_query");
    assert_eq!(
        c.database_name().unwrap().to_string(),
        "hoover3__test_datasource_query"
    );
}
