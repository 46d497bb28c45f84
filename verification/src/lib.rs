//! A durable entity registry: a paged byte store carved into independent
//! logical memories, a durable cell allocating globally unique identifiers,
//! one durable ordered map of encoded records per entity type, and a
//! repository layer that enforces referential integrity, ownership,
//! uniqueness and capacity rules across those maps.

pub mod backing;
pub mod codec;
pub mod table;
pub mod records;
pub mod text;
pub mod store;
pub mod realty;
pub mod campus;
pub mod laws;
