use vstd::prelude::*;

use crate::driver::Driver;
use crate::driver::Transaction;
use crate::driver::ns_version;

verus! {

/// The version bookkeeping described by an association list, later entries
/// shadowing earlier ones for the same namespace.
pub open spec fn assoc_map(s: Seq<(String, u64)>) -> Map<Seq<char>, u64>
    decreases s.len(),
{
    if s.len() == 0 {
        Map::empty()
    } else {
        assoc_map(s.drop_last()).insert(s.last().0@, s.last().1)
    }
}

/// The views of a sequence of owned strings.
pub open spec fn strs_of(v: Seq<String>) -> Seq<Seq<char>> {
    v.map_values(|s: String| s@)
}

proof fn lemma_assoc_map_append(a: Seq<(String, u64)>, b: Seq<(String, u64)>)
    ensures
        assoc_map(a + b) == assoc_map(a).union_prefer_right(assoc_map(b)),
    decreases b.len(),
{
    if b.len() == 0 {
        assert(a + b =~= a);
        assert(assoc_map(a).union_prefer_right(assoc_map(b)) =~= assoc_map(a));
    } else {
        lemma_assoc_map_append(a, b.drop_last());
        assert((a + b).drop_last() =~= a + b.drop_last());
        assert((a + b).last() == b.last());
        assert(assoc_map(a).union_prefer_right(assoc_map(b.drop_last())).insert(
            b.last().0@,
            b.last().1,
        ) =~= assoc_map(a).union_prefer_right(assoc_map(b)));
    }
}

/// Error type of the in-memory backend: it carries no detail, a statement
/// either runs or was configured to be refused.
#[derive(Debug)]
pub struct MemError;

/// An in-memory storage backend, the reference implementation of the
/// backend protocol: bookkeeping and statement log live in ordinary
/// vectors, and a transaction buffers its work until commit.
///
/// Statements do not need to be real SQL; none is interpreted. Specific
/// statements can be configured to fail via [`MemoryDriver::reject_statement`],
/// which makes the backend's failure paths reachable for testing.
pub struct MemoryDriver {
    committed: Vec<(String, u64)>,
    history: Vec<String>,
    rejected: Vec<String>,
}

/// A buffered transaction on a [`MemoryDriver`].
pub struct MemoryTransaction {
    changes: Vec<(String, u64)>,
    stmts: Vec<String>,
    rejected: Vec<String>,
}

impl MemoryTransaction {
    /// `sql` is one of the statements this transaction was configured, at
    /// the driver, to refuse.
    pub closed spec fn rejects(&self, sql: Seq<char>) -> bool {
        exists|i: int| 0 <= i < self.rejected@.len() && self.rejected@[i]@ == sql
    }
}

fn clone_strings(v: &Vec<String>) -> (r: Vec<String>)
    ensures
        r@ == v@,
{
    let mut r: Vec<String> = Vec::new();
    let n = v.len();
    let mut i: usize = 0;
    while i < n
        invariant
            i <= n,
            n == v@.len(),
            r@ =~= v@.subrange(0, i as int),
        decreases n - i,
    {
        r.push(v[i].clone());
        i += 1;
    }
    proof {
        assert(v@.subrange(0, n as int) =~= v@);
    }
    r
}

fn contains_string(v: &Vec<String>, s: &String) -> (r: bool)
    ensures
        r == (exists|i: int| 0 <= i < v@.len() && v@[i]@ == s@),
{
    let n = v.len();
    let mut i: usize = 0;
    while i < n
        invariant
            i <= n,
            n == v@.len(),
            forall|j: int| 0 <= j < i ==> v@[j]@ != s@,
        decreases n - i,
    {
        if v[i] == *s {
            return true;
        }
        i += 1;
    }
    false
}

fn lookup(list: &Vec<(String, u64)>, namespace: &str) -> (r: Option<u64>)
    ensures
        r == ns_version(assoc_map(list@), namespace@),
{
    let ns: String = namespace.to_owned();
    let mut i: usize = list.len();
    proof {
        assert(list@.subrange(0, list@.len() as int) =~= list@);
    }
    while i > 0
        invariant
            i <= list@.len(),
            ns@ == namespace@,
            ns_version(assoc_map(list@), namespace@) == ns_version(
                assoc_map(list@.subrange(0, i as int)),
                namespace@,
            ),
        decreases i,
    {
        i -= 1;
        proof {
            assert(list@.subrange(0, i as int + 1).drop_last() =~= list@.subrange(0, i as int));
            assert(list@.subrange(0, i as int + 1).last() == list@[i as int]);
        }
        if list[i].0 == ns {
            return Some(list[i].1);
        }
    }
    proof {
        assert(list@.subrange(0, 0) =~= Seq::<(String, u64)>::empty());
    }
    None
}

impl MemoryDriver {
    /// `sql` is one of the statements this backend was configured to
    /// refuse.
    pub closed spec fn rejects(&self, sql: Seq<char>) -> bool {
        exists|i: int| 0 <= i < self.rejected@.len() && self.rejected@[i]@ == sql
    }

    /// A fresh backend: no namespace migrated, nothing committed, every
    /// statement accepted.
    pub fn new() -> (r: MemoryDriver)
        ensures
            r.versions() == Map::<Seq<char>, u64>::empty(),
            r.log() == Seq::<Seq<char>>::empty(),
            forall|s: Seq<char>| !r.rejects(s),
    {
        let r = MemoryDriver { committed: Vec::new(), history: Vec::new(), rejected: Vec::new() };
        proof {
            assert(r.log() =~= Seq::<Seq<char>>::empty());
        }
        r
    }

    /// The statements committed so far, in execution order.
    pub fn statement_log(&self) -> (r: &Vec<String>)
        ensures
            strs_of(r@) == self.log(),
    {
        &self.history
    }

    /// Configure the backend to fail every later execution of `sql`: a
    /// fault-injection hook that makes failure and rollback paths
    /// observable. Durable state is untouched.
    pub fn reject_statement(&mut self, sql: &str)
        ensures
            final(self).versions() == old(self).versions(),
            final(self).log() == old(self).log(),
            forall|s: Seq<char>|
                #[trigger] final(self).rejects(s) <==> (old(self).rejects(s) || s == sql@),
    {
        self.rejected.push(sql.to_owned());
        proof {
            let n = old(self).rejected@.len() as int;
            assert forall|s: Seq<char>| #[trigger] self.rejects(s) implies (old(self).rejects(s)
                || s == sql@) by {
                let i = choose|i: int| 0 <= i < self.rejected@.len() && self.rejected@[i]@ == s;
                if i < n {
                    assert(old(self).rejected@[i]@ == s);
                }
            }
            assert forall|s: Seq<char>| old(self).rejects(s) || s == sql@ implies
                #[trigger] self.rejects(s) by {
                if old(self).rejects(s) {
                    let i = choose|i: int|
                        0 <= i < old(self).rejected@.len() && old(self).rejected@[i]@ == s;
                    assert(self.rejected@[i]@ == s);
                } else {
                    assert(self.rejected@[n]@ == s);
                }
            }
        }
    }
}

impl Transaction<MemError> for MemoryTransaction {
    closed spec fn recorded(&self) -> Map<Seq<char>, u64> {
        assoc_map(self.changes@)
    }

    closed spec fn executed(&self) -> Seq<Seq<char>> {
        strs_of(self.stmts@)
    }

    fn execute_sql(&mut self, sql: &str) -> (r: Result<(), MemError>)
        ensures
            r is Ok <==> !old(self).rejects(sql@),
            r is Err ==> *final(self) == *old(self),
    {
        let owned: String = sql.to_owned();
        if contains_string(&self.rejected, &owned) {
            Err(MemError)
        } else {
            self.stmts.push(owned);
            proof {
                assert(self.stmts@.drop_last() =~= old(self).stmts@);
                assert(strs_of(self.stmts@) =~= strs_of(old(self).stmts@).push(sql@));
            }
            Ok(())
        }
    }

    fn push_latest_version(&mut self, namespace: &str, version: u64) -> (r: Result<
        (),
        MemError,
    >)
        ensures
            r is Ok,
    {
        self.changes.push((namespace.to_owned(), version));
        proof {
            assert(self.changes@.drop_last() =~= old(self).changes@);
        }
        Ok(())
    }
}

impl Driver for MemoryDriver {
    type Txn = MemoryTransaction;

    type Error = MemError;

    closed spec fn versions(&self) -> Map<Seq<char>, u64> {
        assoc_map(self.committed@)
    }

    closed spec fn log(&self) -> Seq<Seq<char>> {
        strs_of(self.history@)
    }

    fn begin(&mut self) -> (r: Result<MemoryTransaction, MemError>)
        ensures
            r is Ok,
            r matches Ok(txn) ==> forall|s: Seq<char>|
                #[trigger] txn.rejects(s) <==> old(self).rejects(s),
    {
        let txn = MemoryTransaction {
            changes: Vec::new(),
            stmts: Vec::new(),
            rejected: clone_strings(&self.rejected),
        };
        proof {
            assert(txn.executed() =~= Seq::<Seq<char>>::empty());
            assert forall|s: Seq<char>| #[trigger] txn.rejects(s) implies self.rejects(s) by {
                let i = choose|i: int| 0 <= i < txn.rejected@.len() && txn.rejected@[i]@ == s;
                assert(self.rejected@[i]@ == s);
            }
            assert forall|s: Seq<char>| #[trigger] self.rejects(s) implies txn.rejects(s) by {
                let i = choose|i: int| 0 <= i < self.rejected@.len() && self.rejected@[i]@ == s;
                assert(txn.rejected@[i]@ == s);
            }
        }
        Ok(txn)
    }

    fn latest_version(&mut self, namespace: &str) -> (r: Result<Option<u64>, MemError>)
        ensures
            r is Ok,
    {
        Ok(lookup(&self.committed, namespace))
    }

    fn commit(&mut self, txn: MemoryTransaction) -> (r: Result<(), MemError>)
        ensures
            r is Ok,
    {
        let ghost committed0 = self.committed@;
        let ghost history0 = self.history@;
        let ghost changes0 = txn.changes@;
        let ghost stmts0 = txn.stmts@;
        let mut txn = txn;
        self.committed.append(&mut txn.changes);
        self.history.append(&mut txn.stmts);
        proof {
            lemma_assoc_map_append(committed0, changes0);
            assert(strs_of(self.history@) =~= strs_of(history0) + strs_of(stmts0));
        }
        Ok(())
    }
}

} // verus!
