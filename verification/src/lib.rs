//! Shared types and the pure decision logic of the hoover3 document
//! processing system: identifiers, database schema types, filesystem scan
//! models, processing plans, hashing and text splitting.

pub mod identifier;
pub mod text;
pub mod db_schema;
pub mod data_access;
pub mod datasource;
pub mod collection;
pub mod tasks;
pub mod chunking;
pub mod hex;
pub mod hashing;
pub mod paths;
pub mod fs_models;
pub mod strord;
pub mod scan;
pub mod hash_plan;
pub mod processing;
pub mod paragraphs;
pub mod blob_plan;
pub mod status_tree;
pub mod taskdef;
pub mod workflow_steps;
pub mod docker_health;
