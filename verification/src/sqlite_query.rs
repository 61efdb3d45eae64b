//! The SQLite side of the query layer.

use vstd::prelude::*;

verus! {

/// The query layer on SQLite, over an executor: a connection pool, a
/// connection, or an open transaction.
pub struct SqliteApp<E>(pub E);

} // verus!
