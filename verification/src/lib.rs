pub mod text;
pub mod data;
pub mod schema;
pub mod index;
pub mod inference;
pub mod header;
pub mod sampling;
pub mod table;
pub mod transform;
pub mod schema_cmd;
pub mod filter;
pub mod derive;
pub mod cli;
pub mod io_utils;
pub mod commands;
pub mod plan;
pub mod validation;
pub mod mapping;
pub mod frequency;
pub mod join;
pub mod report;
pub mod temporal;
