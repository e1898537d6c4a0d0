use vstd::prelude::*;

verus! {

/// The latest applied version that `vs` records for namespace `ns`, if any.
pub open spec fn ns_version(vs: Map<Seq<char>, u64>, ns: Seq<char>) -> Option<u64> {
    if vs.dom().contains(ns) {
        Some(vs[ns])
    } else {
        None
    }
}

/// One transaction on a [`Driver`]: statements executed and versions
/// recorded through it stay buffered, invisible in the driver's durable
/// state, until [`Driver::commit`] succeeds; on any failure path they are
/// discarded. `E` is the driver's error type.
pub trait Transaction<E>: Sized {
    /// Versions recorded so far within this transaction, per namespace.
    spec fn recorded(&self) -> Map<Seq<char>, u64>;

    /// Statements executed so far within this transaction, in order.
    spec fn executed(&self) -> Seq<Seq<char>>;

    /// Execute one statement inside this transaction.
    fn execute_sql(&mut self, sql: &str) -> (r: Result<(), E>)
        ensures
            r is Ok ==> final(self).executed() == old(self).executed().push(sql@)
                && final(self).recorded() == old(self).recorded(),
    ;

    /// Record `version` as the latest applied version for `namespace`,
    /// overwriting any version this transaction recorded for it before.
    fn push_latest_version(&mut self, namespace: &str, version: u64) -> (r: Result<(), E>)
        ensures
            r is Ok ==> final(self).recorded()
                == old(self).recorded().insert(namespace@, version)
                && final(self).executed() == old(self).executed(),
    ;
}

/// A storage backend able to begin transactions and to report the latest
/// applied migration version per namespace.
///
/// The backend's durable bookkeeping is abstracted as two pieces of state:
/// `versions`, the latest applied version per namespace, and `log`, the
/// statements committed so far, in order of execution. Only a successful
/// `commit` may change either; every other operation, whether it succeeds
/// or fails, leaves both exactly as they were.
pub trait Driver: Sized {
    type Txn: Transaction<Self::Error>;

    type Error;

    /// Latest applied version per namespace, as durably recorded.
    spec fn versions(&self) -> Map<Seq<char>, u64>;

    /// All statements durably committed so far, in execution order.
    spec fn log(&self) -> Seq<Seq<char>>;

    /// Begin a transaction. A fresh transaction has executed no statement
    /// and recorded no version.
    fn begin(&mut self) -> (r: Result<Self::Txn, Self::Error>)
        ensures
            final(self).versions() == old(self).versions(),
            final(self).log() == old(self).log(),
            r matches Ok(txn) ==> txn.recorded() == Map::<Seq<char>, u64>::empty()
                && txn.executed() == Seq::<Seq<char>>::empty(),
    ;

    /// Read the latest applied version for `namespace`; `None` means the
    /// namespace has never been migrated.
    fn latest_version(&mut self, namespace: &str) -> (r: Result<Option<u64>, Self::Error>)
        ensures
            final(self).versions() == old(self).versions(),
            final(self).log() == old(self).log(),
            r matches Ok(v) ==> v == ns_version(old(self).versions(), namespace@),
    ;

    /// Atomically finalize all work buffered in `txn`: recorded versions
    /// overwrite the durable ones namespace by namespace, and executed
    /// statements are appended to the durable log. On failure none of the
    /// transaction's writes take effect.
    fn commit(&mut self, txn: Self::Txn) -> (r: Result<(), Self::Error>)
        ensures
            r is Ok ==> final(self).versions()
                == old(self).versions().union_prefer_right(txn.recorded())
                && final(self).log() == old(self).log() + txn.executed(),
            r is Err ==> final(self).versions() == old(self).versions()
                && final(self).log() == old(self).log(),
    ;
}

} // verus!
