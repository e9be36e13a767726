//! Schema-driven mapping engine between tabular sources, a relational store
//! and a graph-shaped entity/relationship message model.
//!
//! The library covers the core of two flows that share one schema:
//! LOAD (ingest a CSV/JSON source into a typed columnar batch and materialize
//! it as a replacement table via generated DDL/DML) and EXTRACT&PUBLISH
//! (classify each query-result row's columns into entity and relationship
//! groups and emit one keyed message per group). File and network reads,
//! driver connections and the CLI live outside the library; they hand it
//! plain values through the `Database` and `Hook` collaborator traits.

use vstd::prelude::*;

pub mod batch;
pub mod csv;
pub mod data;
pub mod extract;
pub mod ingest;
pub mod json;
pub mod num;
pub mod schema;
pub mod sql;
pub mod text;

verus! {

/// The error taxonomy of the mapping engine.
///
/// Schema errors (`Validation`, `MissingSource`) are fatal at startup; load
/// format/type errors abort before any statement is issued; extraction errors
/// abort the row; `UnresolvedRelationshipEndpoint` is scoped to a single
/// relationship within a row; `Statement` and `Query` are raised by storage
/// collaborators.
#[derive(Debug, Clone, PartialEq, Eq)]
pub enum Error {
    /// The mapping definition is malformed: an unknown data-type tag, a
    /// relationship reference that does not split into exactly two tokens,
    /// or a malformed affiliation token.
    Validation(String),
    /// The schema declares no locator for the requested source kind.
    MissingSource(String),
    /// No parser exists for the source's extension or content-type subtype,
    /// or the content is not decodable in the selected format.
    UnsupportedFormat(String),
    /// The source could not be read or fetched.
    SourceUnavailable(String),
    /// A raw value could not be coerced into the declared primitive type.
    TypeMismatch { field: String, raw: String },
    /// A column type that the statement generators cannot render.
    UnsupportedType(String),
    /// A query-result column's runtime type is outside the supported table.
    UnsupportedColumnType(String),
    /// A schema field carries no affiliation, or the row does not carry a
    /// value for a schema-declared field, so the row cannot be classified.
    SchemaIntegrity(String),
    /// An entity bucket was populated but no identity field was seen.
    MissingIdentity(String),
    /// One endpoint of a declared relationship has no resolved identity in
    /// the current row.
    UnresolvedRelationshipEndpoint(String),
    /// `publish` was called before a topic was configured.
    NotConfigured,
    /// The storage collaborator rejected a DDL/DML statement.
    Statement(String),
    /// The storage collaborator rejected a read query.
    Query(String),
}

} // verus!
