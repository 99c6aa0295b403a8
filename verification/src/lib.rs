//! A verified model of a small bookstore data-access layer: authors and
//! books joined by a many-to-many relation, with per-entity CRUD, bulk
//! create-and-link transactions, join-and-group queries, and a seeding
//! routine with all-or-nothing commit semantics.
//!
//! The relational state itself is modelled by [`store::Store`]; the
//! surrounding process (connection pools, SQL round trips) hands rows in
//! and out as plain values and drives commit/rollback decisions through
//! the verified disposition functions.

pub mod authors;
pub mod books;
pub mod seeds;
pub mod store;
