//! A schema-migration engine: given a version-ordered set of SQL
//! statements and a storage backend, applies every statement whose version
//! exceeds the backend's recorded latest version for a namespace — in
//! order, exactly once, inside one transaction — and reports the highest
//! version newly applied. Persisted state ahead of the whole supplied set
//! is detected and rejected as version skew.

pub mod driver;
pub mod error;
pub mod laws;
pub mod loader;
pub mod memory;
pub mod migration;
pub mod ordered;

pub use driver::Driver;
pub use driver::Transaction;
pub use error::MigrationError;
pub use migration::Migration;
pub use ordered::OrderedArray;

use vstd::prelude::*;

use crate::driver::ns_version;

verus! {

/// Namespace used when the caller specifies none.
pub const DEFAULT_NAMESPACE: &'static str = "nomad";

/// A migration with version `version` is due when the persisted latest
/// version `latest` is absent or strictly below it.
pub open spec fn applies(latest: Option<u64>, version: u64) -> bool {
    match latest {
        Some(l) => version > l,
        None => true,
    }
}

/// The migrations of `ms`, in order, that a run starting from persisted
/// version `latest` executes: exactly those whose version is due.
pub open spec fn applied_set(ms: Seq<Migration>, latest: Option<u64>) -> Seq<Migration>
    decreases ms.len(),
{
    if ms.len() == 0 {
        Seq::empty()
    } else {
        let pre = applied_set(ms.drop_last(), latest);
        if applies(latest, ms.last().version) {
            pre.push(ms.last())
        } else {
            pre
        }
    }
}

/// The statement bodies of `ms`, in order.
pub open spec fn stmts_of(ms: Seq<Migration>) -> Seq<Seq<char>> {
    ms.map_values(|m: Migration| m.sql@)
}

/// The version reported by a run over `ms` starting from `latest`: the
/// version of the last migration executed, absent when nothing was due.
pub open spec fn last_applied(ms: Seq<Migration>, latest: Option<u64>) -> Option<u64> {
    if applied_set(ms, latest).len() == 0 {
        None
    } else {
        Some(applied_set(ms, latest).last().version)
    }
}

/// The persisted state is ahead of everything supplied: `ms` is non-empty
/// and its last (greatest, once sorted) version is below the persisted one.
pub open spec fn version_skew(ms: Seq<Migration>, latest: Option<u64>) -> bool {
    ms.len() > 0 && (latest matches Some(l) && l > ms.last().version)
}

/// The per-namespace version bookkeeping after a successful run of `ms`
/// under namespace `ns`, starting from bookkeeping `vs`.
pub open spec fn versions_after(
    vs: Map<Seq<char>, u64>,
    ns: Seq<char>,
    ms: Seq<Migration>,
) -> Map<Seq<char>, u64> {
    match last_applied(ms, ns_version(vs, ns)) {
        Some(v) => vs.insert(ns, v),
        None => vs,
    }
}

/// What a transaction has recorded after applying migrations up to reported
/// version `la` under namespace `ns`.
spec fn recorded_for(ns: Seq<char>, la: Option<u64>) -> Map<Seq<char>, u64> {
    match la {
        Some(v) => Map::<Seq<char>, u64>::empty().insert(ns, v),
        None => Map::<Seq<char>, u64>::empty(),
    }
}

/// Orchestrates one migration run: reads the namespace's persisted latest
/// version, opens one transaction, applies every due migration in order,
/// detects version skew, and commits — or never commits on any failure.
pub struct MigrationRunner<D: Driver> {
    pub driver: D,
    pub namespace: String,
}

impl<D: Driver> MigrationRunner<D> {
    /// Runner over the default namespace.
    pub fn new(driver: D) -> (r: MigrationRunner<D>)
        ensures
            r.driver == driver,
            r.namespace@ == DEFAULT_NAMESPACE@,
    {
        MigrationRunner { driver, namespace: DEFAULT_NAMESPACE.to_owned() }
    }

    /// Runner over a caller-chosen namespace.
    pub fn with_namespace(driver: D, namespace: &str) -> (r: MigrationRunner<D>)
        ensures
            r.driver == driver,
            r.namespace@ == namespace@,
    {
        MigrationRunner { driver, namespace: namespace.to_owned() }
    }

    /// Apply every migration of `migrations` whose version exceeds the
    /// namespace's persisted latest version, in order, each exactly once,
    /// inside one transaction.
    ///
    /// On success the result carries the version of the last migration
    /// newly applied (`None`: nothing was due), the bookkeeping moves to
    /// exactly `versions_after`, and exactly the due statements were
    /// committed, in order. On any failure — backend error anywhere, or
    /// persisted state ahead of the whole supplied set (`TimeTravelError`) —
    /// nothing is committed and the backend's durable state is unchanged.
    #[verifier::loop_isolation(false)]
    pub fn migrate(&mut self, migrations: &OrderedArray) -> (r: Result<
        Option<u64>,
        MigrationError<D::Error>,
    >)
        ensures
            final(self).namespace@ == old(self).namespace@,
            ({
                let vs0 = old(self).driver.versions();
                let log0 = old(self).driver.log();
                let ns = old(self).namespace@;
                let ms = migrations@;
                let latest = ns_version(vs0, ns);
                &&& (r matches Ok(applied) ==> {
                    &&& applied == last_applied(ms, latest)
                    &&& final(self).driver.versions() == versions_after(vs0, ns, ms)
                    &&& final(self).driver.log() == log0 + stmts_of(applied_set(ms, latest))
                    &&& !version_skew(ms, latest)
                })
                &&& (r matches Err(e) ==> {
                    &&& final(self).driver.versions() == vs0
                    &&& final(self).driver.log() == log0
                    &&& (e is TimeTravelError ==> version_skew(ms, latest))
                })
                &&& (version_skew(ms, latest) ==> !(r is Ok))
            }),
    {
        let ghost vs0 = self.driver.versions();
        let ghost log0 = self.driver.log();
        let ghost ns = self.namespace@;
        let ghost ms = migrations@;

        let latest = match self.driver.latest_version(self.namespace.as_str()) {
            Ok(v) => v,
            Err(e) => {
                return Err(MigrationError::DriverError(e));
            },
        };

        let mut txn = match self.driver.begin() {
            Ok(t) => t,
            Err(e) => {
                return Err(MigrationError::DriverError(e));
            },
        };

        let items = migrations.as_slice();
        let n = items.len();
        let mut last_executed: Option<u64> = None;
        let mut latest_observed: Option<u64> = None;
        let mut i: usize = 0;

        proof {
            assert(ms.subrange(0, 0) =~= Seq::<Migration>::empty());
            assert(stmts_of(Seq::<Migration>::empty()) =~= Seq::<Seq<char>>::empty());
        }

        while i < n
            invariant
                i <= n,
                n == ms.len(),
                items@ == ms,
                self.driver.versions() == vs0,
                self.driver.log() == log0,
                self.namespace@ == ns,
                latest == ns_version(vs0, ns),
                txn.executed() == stmts_of(applied_set(ms.subrange(0, i as int), latest)),
                txn.recorded() == recorded_for(
                    ns,
                    last_applied(ms.subrange(0, i as int), latest),
                ),
                last_executed == last_applied(ms.subrange(0, i as int), latest),
                latest_observed == (if i == 0 {
                    None
                } else {
                    Some(ms[i - 1].version)
                }),
            decreases n - i,
        {
            let ghost pre = ms.subrange(0, i as int);
            let ghost cur = ms.subrange(0, i as int + 1);
            proof {
                assert(cur.drop_last() =~= pre);
                assert(cur.last() == ms[i as int]);
            }

            let m = &items[i];
            latest_observed = Some(m.version);

            let skip = match latest {
                Some(v) => m.version <= v,
                None => false,
            };
            if !skip {
                match txn.execute_sql(m.sql.as_str()) {
                    Ok(()) => {},
                    Err(e) => {
                        return Err(MigrationError::DriverError(e));
                    },
                };
                let ghost recorded0 = txn.recorded();
                match txn.push_latest_version(self.namespace.as_str(), m.version) {
                    Ok(()) => {},
                    Err(e) => {
                        return Err(MigrationError::DriverError(e));
                    },
                };
                last_executed = Some(m.version);
                proof {
                    assert(applies(latest, ms[i as int].version));
                    assert(applied_set(cur, latest) == applied_set(pre, latest).push(
                        ms[i as int],
                    ));
                    assert(stmts_of(applied_set(pre, latest).push(ms[i as int])) =~= stmts_of(
                        applied_set(pre, latest),
                    ).push(ms[i as int].sql@));
                    assert(txn.recorded() == recorded0.insert(ns, ms[i as int].version));
                    assert(recorded0.insert(ns, ms[i as int].version) =~= recorded_for(
                        ns,
                        Some(ms[i as int].version),
                    ));
                }
            } else {
                proof {
                    assert(!applies(latest, ms[i as int].version));
                    assert(applied_set(cur, latest) == applied_set(pre, latest));
                }
            }
            i += 1;
        }

        proof {
            assert(ms.subrange(0, n as int) =~= ms);
        }

        if let Some(lo) = latest_observed {
            if let Some(lv) = latest {
                if lv > lo {
                    proof {
                        assert(ms.len() > 0);
                        assert(ms.last() == ms[n - 1]);
                        assert(version_skew(ms, latest));
                    }
                    return Err(MigrationError::TimeTravelError);
                }
            }
        }

        proof {
            assert(!version_skew(ms, latest));
        }

        match self.driver.commit(txn) {
            Ok(()) => {},
            Err(e) => {
                return Err(MigrationError::DriverError(e));
            },
        };

        proof {
            let la = last_applied(ms, latest);
            if la is Some {
                assert(vs0.union_prefer_right(recorded_for(ns, la)) =~= vs0.insert(
                    ns,
                    la->0,
                ));
            } else {
                assert(vs0.union_prefer_right(recorded_for(ns, la)) =~= vs0);
            }
        }

        Ok(last_executed)
    }
}

} // verus!
