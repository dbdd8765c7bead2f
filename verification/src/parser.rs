pub mod create;
pub mod insert;
pub mod select;
pub mod statement;
