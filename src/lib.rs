//! Destination column writers of a tabular transport and the MySQL to Arrow
//! type table: fixed-width columns with a validity mask, variable-length
//! columns that batch their payload before materializing it under an
//! allocation lock, and the check of a schema against the transport table.

pub mod buffer;
pub mod bytes;
pub mod errors;
pub mod int64;
pub mod string;
pub mod transport;
