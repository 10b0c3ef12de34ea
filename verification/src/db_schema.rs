//! Database schema types: collections, tables, columns and column types,
//! with their names in the Scylla and Nebula type systems.

use std::collections::BTreeMap;

use vstd::prelude::*;

use crate::identifier::{CollectionId, DatabaseIdentifier};
use crate::text::{ascii_chars, ascii_upper, owned, str_eq, str_to_uppercase, unicode_uppercase};

verus! {

/// The schema of one collection across the databases.
#[derive(Debug, PartialEq, Eq, PartialOrd, Ord)]
pub struct CollectionSchema {
    /// The collection.
    pub collection_id: CollectionId,
    /// Scylla tables.
    pub scylla: ScyllaDatabaseSchema,
    /// Nebula graph tags and edges.
    pub nebula: NebulaDatabaseSchema,
    /// Meilisearch document statistics.
    pub meilisearch: MeilisearchDatabaseSchema,
}

/// Schema information of the search engine.
#[derive(Debug, Clone, PartialEq, Eq, PartialOrd, Ord)]
pub struct MeilisearchDatabaseSchema {
    /// Number of documents.
    pub doc_count: i64,
    /// Number of documents holding each field.
    pub fields: BTreeMap<String, i64>,
}

/// Schema information of the Scylla keyspace.
#[derive(Debug, PartialEq, Eq, PartialOrd, Ord)]
pub struct ScyllaDatabaseSchema {
    /// Tables by name.
    pub tables: BTreeMap<DatabaseIdentifier, DatabaseTable>,
}

/// Schema information of the Nebula graph space.
#[derive(Debug, PartialEq, Eq, PartialOrd, Ord)]
pub struct NebulaDatabaseSchema {
    /// Vertex tags by name.
    pub tags: BTreeMap<DatabaseIdentifier, DatabaseTable>,
    /// Edge types.
    pub edges: Vec<GraphEdgeType>,
}

/// A table and its columns.
#[derive(Debug, PartialEq, Eq, PartialOrd, Ord)]
pub struct DatabaseTable {
    /// Table name.
    pub name: DatabaseIdentifier,
    /// Columns, in order.
    pub columns: Vec<DatabaseColumn>,
}

/// A column of a table.
#[derive(Debug, PartialEq, Eq, PartialOrd, Ord)]
pub struct DatabaseColumn {
    /// Column name.
    pub name: DatabaseIdentifier,
    /// Column type.
    pub _type: DatabaseColumnType,
    /// Whether the column is part of the primary key.
    pub primary: bool,
}

/// An edge type of the graph.
#[derive(Debug, Clone, PartialEq, Eq, PartialOrd, Ord)]
pub struct GraphEdgeType {
    /// Edge type name.
    pub name: DatabaseIdentifier,
}

/// The databases of the system.
#[derive(Debug, Clone, PartialEq, PartialOrd)]
pub enum DatabaseServiceType {
    /// ScyllaDB.
    Scylla,
    /// Nebula Graph.
    Nebula,
    /// Meilisearch.
    Meilisearch,
}

/// The type of a column.
#[derive(Debug, PartialEq, Eq, PartialOrd, Ord)]
pub enum DatabaseColumnType {
    /// Text.
    String,
    /// 8-bit integer.
    Int8,
    /// 16-bit integer.
    Int16,
    /// 32-bit integer.
    Int32,
    /// 64-bit integer.
    Int64,
    /// 32-bit float.
    Float,
    /// 64-bit float.
    Double,
    /// Boolean.
    Boolean,
    /// Timestamp.
    Timestamp,
    /// Object with named typed fields.
    Object(Vec<(String, Box<DatabaseColumnType>)>),
    /// List of values of one type.
    List(Box<DatabaseColumnType>),
    /// Any other type, by name.
    Other(String),
}

/// Why a column type has no name in a database's type system.
#[derive(Debug, Clone, Copy, PartialEq, Eq)]
pub enum ColumnTypeError {
    /// The type has no Scylla equivalent.
    IncompatibleWithScylla,
    /// The name is not a Nebula type.
    UnknownNebulaType,
    /// The type has no Nebula equivalent.
    IncompatibleWithNebula,
}

/// The simple column type that a Scylla type name (upper case) denotes.
pub open spec fn scylla_name_kind(u: Seq<char>) -> Option<DatabaseColumnType> {
    if u == "VARCHAR"@ || u == "TEXT"@ {
        Some(DatabaseColumnType::String)
    } else if u == "TINYINT"@ {
        Some(DatabaseColumnType::Int8)
    } else if u == "SMALLINT"@ {
        Some(DatabaseColumnType::Int16)
    } else if u == "INT"@ {
        Some(DatabaseColumnType::Int32)
    } else if u == "BIGINT"@ {
        Some(DatabaseColumnType::Int64)
    } else if u == "FLOAT"@ {
        Some(DatabaseColumnType::Float)
    } else if u == "DOUBLE"@ {
        Some(DatabaseColumnType::Double)
    } else if u == "BOOLEAN"@ {
        Some(DatabaseColumnType::Boolean)
    } else if u == "TIMESTAMP"@ {
        Some(DatabaseColumnType::Timestamp)
    } else {
        None
    }
}

/// The simple column type that a Nebula type name (upper case) denotes.
pub open spec fn nebula_name_kind(u: Seq<char>) -> Option<DatabaseColumnType> {
    if u == "STRING"@ {
        Some(DatabaseColumnType::String)
    } else if u == "INT8"@ {
        Some(DatabaseColumnType::Int8)
    } else if u == "INT16"@ {
        Some(DatabaseColumnType::Int16)
    } else if u == "INT32"@ {
        Some(DatabaseColumnType::Int32)
    } else if u == "INT64"@ {
        Some(DatabaseColumnType::Int64)
    } else if u == "FLOAT"@ {
        Some(DatabaseColumnType::Float)
    } else if u == "DOUBLE"@ {
        Some(DatabaseColumnType::Double)
    } else if u == "BOOLEAN"@ {
        Some(DatabaseColumnType::Boolean)
    } else if u == "TIMESTAMP"@ {
        Some(DatabaseColumnType::Timestamp)
    } else {
        None
    }
}

/// The Scylla name of a column type, if it has one.
pub open spec fn scylla_type_name(t: DatabaseColumnType) -> Option<Seq<char>> {
    match t {
        DatabaseColumnType::String => Some("TEXT"@),
        DatabaseColumnType::Int8 => Some("TINYINT"@),
        DatabaseColumnType::Int16 => Some("SMALLINT"@),
        DatabaseColumnType::Int32 => Some("INT"@),
        DatabaseColumnType::Int64 => Some("BIGINT"@),
        DatabaseColumnType::Float => Some("FLOAT"@),
        DatabaseColumnType::Double => Some("DOUBLE"@),
        DatabaseColumnType::Boolean => Some("BOOLEAN"@),
        DatabaseColumnType::Timestamp => Some("TIMESTAMP"@),
        _ => None,
    }
}

/// The Nebula name of a column type, if it has one.
pub open spec fn nebula_type_name(t: DatabaseColumnType) -> Option<Seq<char>> {
    match t {
        DatabaseColumnType::String => Some("STRING"@),
        DatabaseColumnType::Int8 => Some("INT8"@),
        DatabaseColumnType::Int16 => Some("INT16"@),
        DatabaseColumnType::Int32 => Some("INT32"@),
        DatabaseColumnType::Int64 => Some("INT64"@),
        DatabaseColumnType::Float => Some("FLOAT"@),
        DatabaseColumnType::Double => Some("DOUBLE"@),
        DatabaseColumnType::Boolean => Some("BOOLEAN"@),
        _ => None,
    }
}

impl DatabaseColumnType {
    /// The column type that an upper-case Scylla type name denotes: a simple
    /// type for the names Scylla and this library share, else `Other` with
    /// the name.
    pub fn from_scylla_upper(u: &str) -> (r: DatabaseColumnType)
        ensures
            match scylla_name_kind(u@) {
                Some(k) => r == k,
                None => r matches DatabaseColumnType::Other(x) && x@ == u@,
            },
    {
        if str_eq(u, "VARCHAR") || str_eq(u, "TEXT") {
            DatabaseColumnType::String
        } else if str_eq(u, "TINYINT") {
            DatabaseColumnType::Int8
        } else if str_eq(u, "SMALLINT") {
            DatabaseColumnType::Int16
        } else if str_eq(u, "INT") {
            DatabaseColumnType::Int32
        } else if str_eq(u, "BIGINT") {
            DatabaseColumnType::Int64
        } else if str_eq(u, "FLOAT") {
            DatabaseColumnType::Float
        } else if str_eq(u, "DOUBLE") {
            DatabaseColumnType::Double
        } else if str_eq(u, "BOOLEAN") {
            DatabaseColumnType::Boolean
        } else if str_eq(u, "TIMESTAMP") {
            DatabaseColumnType::Timestamp
        } else {
            DatabaseColumnType::Other(owned(u))
        }
    }

    /// Converts a Scylla type name, in any case, into a column type; never
    /// fails.
    pub fn from_scylla_type(s: &str) -> (r: Result<DatabaseColumnType, ColumnTypeError>)
        ensures
            r matches Ok(t) && match scylla_name_kind(unicode_uppercase(s@)) {
                Some(k) => t == k,
                None => t matches DatabaseColumnType::Other(x) && x@ == unicode_uppercase(s@),
            },
            ascii_chars(s@) ==> unicode_uppercase(s@) == ascii_upper(s@),
    {
        let u = str_to_uppercase(s);
        Ok(Self::from_scylla_upper(u.as_str()))
    }

    /// The column type that an upper-case Nebula type name denotes, if any.
    pub fn from_nebula_upper(u: &str) -> (r: Result<DatabaseColumnType, ColumnTypeError>)
        ensures
            match nebula_name_kind(u@) {
                Some(k) => r == Ok::<DatabaseColumnType, ColumnTypeError>(k),
                None => r == Err::<DatabaseColumnType, ColumnTypeError>(
                    ColumnTypeError::UnknownNebulaType,
                ),
            },
    {
        if str_eq(u, "STRING") {
            Ok(DatabaseColumnType::String)
        } else if str_eq(u, "INT8") {
            Ok(DatabaseColumnType::Int8)
        } else if str_eq(u, "INT16") {
            Ok(DatabaseColumnType::Int16)
        } else if str_eq(u, "INT32") {
            Ok(DatabaseColumnType::Int32)
        } else if str_eq(u, "INT64") {
            Ok(DatabaseColumnType::Int64)
        } else if str_eq(u, "FLOAT") {
            Ok(DatabaseColumnType::Float)
        } else if str_eq(u, "DOUBLE") {
            Ok(DatabaseColumnType::Double)
        } else if str_eq(u, "BOOLEAN") {
            Ok(DatabaseColumnType::Boolean)
        } else if str_eq(u, "TIMESTAMP") {
            Ok(DatabaseColumnType::Timestamp)
        } else {
            Err(ColumnTypeError::UnknownNebulaType)
        }
    }

    /// Converts a Nebula type name, in any case, into a column type.
    pub fn from_nebula_type(s: &str) -> (r: Result<DatabaseColumnType, ColumnTypeError>)
        ensures
            match nebula_name_kind(unicode_uppercase(s@)) {
                Some(k) => r == Ok::<DatabaseColumnType, ColumnTypeError>(k),
                None => r == Err::<DatabaseColumnType, ColumnTypeError>(
                    ColumnTypeError::UnknownNebulaType,
                ),
            },
            ascii_chars(s@) ==> unicode_uppercase(s@) == ascii_upper(s@),
    {
        let u = str_to_uppercase(s);
        Self::from_nebula_upper(u.as_str())
    }

    /// The Scylla name of this type; an error for the types Scylla lacks.
    pub fn to_scylla_type(&self) -> (r: Result<String, ColumnTypeError>)
        ensures
            match scylla_type_name(*self) {
                Some(n) => r matches Ok(s) && s@ == n,
                None => r == Err::<String, ColumnTypeError>(
                    ColumnTypeError::IncompatibleWithScylla,
                ),
            },
    {
        match self {
            DatabaseColumnType::String => Ok(owned("TEXT")),
            DatabaseColumnType::Int8 => Ok(owned("TINYINT")),
            DatabaseColumnType::Int16 => Ok(owned("SMALLINT")),
            DatabaseColumnType::Int32 => Ok(owned("INT")),
            DatabaseColumnType::Int64 => Ok(owned("BIGINT")),
            DatabaseColumnType::Float => Ok(owned("FLOAT")),
            DatabaseColumnType::Double => Ok(owned("DOUBLE")),
            DatabaseColumnType::Boolean => Ok(owned("BOOLEAN")),
            DatabaseColumnType::Timestamp => Ok(owned("TIMESTAMP")),
            _ => Err(ColumnTypeError::IncompatibleWithScylla),
        }
    }

    /// The Nebula name of this type; an error for the types Nebula lacks.
    pub fn to_nebula_type(&self) -> (r: Result<String, ColumnTypeError>)
        ensures
            match nebula_type_name(*self) {
                Some(n) => r matches Ok(s) && s@ == n,
                None => r == Err::<String, ColumnTypeError>(
                    ColumnTypeError::IncompatibleWithNebula,
                ),
            },
    {
        match self {
            DatabaseColumnType::String => Ok(owned("STRING")),
            DatabaseColumnType::Int8 => Ok(owned("INT8")),
            DatabaseColumnType::Int16 => Ok(owned("INT16")),
            DatabaseColumnType::Int32 => Ok(owned("INT32")),
            DatabaseColumnType::Int64 => Ok(owned("INT64")),
            DatabaseColumnType::Float => Ok(owned("FLOAT")),
            DatabaseColumnType::Double => Ok(owned("DOUBLE")),
            DatabaseColumnType::Boolean => Ok(owned("BOOLEAN")),
            _ => Err(ColumnTypeError::IncompatibleWithNebula),
        }
    }
}

/// The display text of a column type: an object lists its fields, one per
/// line, as `name: type`; a list shows its item type in brackets.
pub open spec fn column_type_text(t: DatabaseColumnType) -> Seq<char>
    decreases t,
{
    match t {
        DatabaseColumnType::Object(o) => "Object {\n  "@ + fields_text(o@) + "\n}"@,
        DatabaseColumnType::List(l) => "List["@ + column_type_text(*l) + "]"@,
        DatabaseColumnType::String => "String"@,
        DatabaseColumnType::Int8 => "Int8"@,
        DatabaseColumnType::Int16 => "Int16"@,
        DatabaseColumnType::Int32 => "Int32"@,
        DatabaseColumnType::Int64 => "Int64"@,
        DatabaseColumnType::Float => "Float"@,
        DatabaseColumnType::Double => "Double"@,
        DatabaseColumnType::Boolean => "Boolean"@,
        DatabaseColumnType::Timestamp => "Timestamp"@,
        DatabaseColumnType::Other(o) => "Other: "@ + o@,
    }
}

/// The fields of an object type, each as `name: type`, separated by a
/// comma and a new line.
pub open spec fn fields_text(fields: Seq<(String, Box<DatabaseColumnType>)>) -> Seq<char>
    decreases fields,
{
    if fields.len() == 0 {
        Seq::empty()
    } else {
        let last = fields[fields.len() - 1];
        let one = last.0@ + ": "@ + column_type_text(*last.1);
        if fields.len() == 1 {
            one
        } else {
            fields_text(fields.drop_last()) + ",\n  "@ + one
        }
    }
}

impl DatabaseColumnType {
    /// The display text of this column type.
    pub fn to_display_string(&self) -> (r: String)
        ensures
            r@ == column_type_text(*self),
        decreases self,
    {
        match self {
            DatabaseColumnType::Object(o) => {
                let mut r = owned("Object {\n  ");
                let f = fields_display(o);
                r.append(f.as_str());
                r.append("\n}");
                r
            },
            DatabaseColumnType::List(l) => {
                let mut r = owned("List[");
                let inner = (**l).to_display_string();
                r.append(inner.as_str());
                r.append("]");
                r
            },
            DatabaseColumnType::String => owned("String"),
            DatabaseColumnType::Int8 => owned("Int8"),
            DatabaseColumnType::Int16 => owned("Int16"),
            DatabaseColumnType::Int32 => owned("Int32"),
            DatabaseColumnType::Int64 => owned("Int64"),
            DatabaseColumnType::Float => owned("Float"),
            DatabaseColumnType::Double => owned("Double"),
            DatabaseColumnType::Boolean => owned("Boolean"),
            DatabaseColumnType::Timestamp => owned("Timestamp"),
            DatabaseColumnType::Other(o) => {
                let mut r = owned("Other: ");
                r.append(o.as_str());
                r
            },
        }
    }
}

/// The display text of the fields of an object type.
fn fields_display(fields: &Vec<(String, Box<DatabaseColumnType>)>) -> (r: String)
    ensures
        r@ == fields_text(fields@),
    decreases fields@,
{
    let mut r = String::new();
    let n = fields.len();
    let mut i: usize = 0;
    while i < n
        invariant
            n == fields@.len(),
            i <= n,
            r@ == fields_text(fields@.take(i as int)),
        decreases n - i,
    {
        proof {
            assert(fields@.take(i + 1).drop_last() =~= fields@.take(i as int));
            assert(fields@.take(i + 1)[i as int] == fields@[i as int]);
            assert(decreases_to!(fields@ => fields@[i as int]));
        }
        if i > 0 {
            r.append(",\n  ");
        }
        r.append(fields[i].0.as_str());
        r.append(": ");
        let t = (*fields[i].1).to_display_string();
        r.append(t.as_str());
        i = i + 1;
    }
    proof {
        assert(fields@.take(n as int) =~= fields@);
    }
    r
}

} // verus!
