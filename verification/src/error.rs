use vstd::prelude::*;

verus! {

/// Failure of a [`migrate`](crate::MigrationRunner::migrate) call.
///
/// `DriverError` wraps any failure reported by the storage layer; it is
/// always propagated unchanged and never retried. `TimeTravelError` signals
/// a caller invariant violation instead: the persisted latest version is
/// ahead of every version in the supplied set, so the supplied set is stale
/// relative to what has already been applied.
#[derive(Debug)]
pub enum MigrationError<E> {
    TimeTravelError,
    DriverError(E),
}

impl<E> From<E> for MigrationError<E> {
    fn from(err: E) -> (r: MigrationError<E>) {
        MigrationError::DriverError(err)
    }
}

impl<E> vstd::std_specs::convert::FromSpecImpl<E> for MigrationError<E> {
    open spec fn obeys_from_spec() -> bool {
        true
    }

    open spec fn from_spec(err: E) -> MigrationError<E> {
        MigrationError::DriverError(err)
    }
}

impl<E> MigrationError<E> {
    /// Human-readable description of the error kind.
    pub fn message(&self) -> (r: &'static str)
        ensures
            self is TimeTravelError ==> r@
                == "Latest migrated version exceeds latest known version - possible downgrade"@,
            self is DriverError ==> r@ == "The storage backend reported an error"@,
    {
        match self {
            MigrationError::TimeTravelError => {
                "Latest migrated version exceeds latest known version - possible downgrade"
            },
            MigrationError::DriverError(_) => "The storage backend reported an error",
        }
    }
}

} // verus!
