//! A small relational database in memory: typed column stores, ordered
//! indexes on primary keys, insertion under a unique constraint, and
//! selection under one predicate, by index where the column has one and by
//! scan where it has none.

pub mod cell;
pub mod column;
pub mod command;
pub mod database;
pub mod datatype;
pub mod engine;
pub mod error;
pub mod filing;
pub mod header;
pub mod image;
pub mod index;
pub mod insertion;
pub mod laws;
pub mod names;
pub mod parser;
pub mod run;
pub mod screen;
pub mod selection;
pub mod snapshot;
pub mod sql;
pub mod table;
pub mod text;
