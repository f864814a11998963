pub mod row;

pub use row::Row;
