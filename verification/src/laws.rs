use vstd::prelude::*;

use crate::applied_set;
use crate::applies;
use crate::last_applied;
use crate::version_skew;
use crate::versions_after;
use crate::driver::ns_version;
use crate::migration::Migration;
use crate::ordered::sorted_by_version;
use crate::ordered::strictly_ascending;

verus! {

/// When the persisted version is at least every version in `ms`, nothing
/// is due.
proof fn lemma_none_due(ms: Seq<Migration>, l: u64)
    requires
        forall|i: int| 0 <= i < ms.len() ==> ms[i].version <= l,
    ensures
        applied_set(ms, Some(l)) == Seq::<Migration>::empty(),
    decreases ms.len(),
{
    if ms.len() > 0 {
        assert(forall|i: int| 0 <= i < ms.drop_last().len() ==> ms.drop_last()[i] == ms[i]);
        lemma_none_due(ms.drop_last(), l);
        assert(!applies(Some(l), ms.last().version));
    }
}

/// On a sorted set, the version a successful run reports is the version of
/// the set's last (greatest) migration — or nothing was due at all.
pub proof fn lemma_last_applied_is_max(ms: Seq<Migration>, latest: Option<u64>)
    requires
        sorted_by_version(ms),
    ensures
        last_applied(ms, latest) matches Some(v) ==> ms.len() > 0 && v == ms.last().version,
{
    if ms.len() > 0 {
        if !applies(latest, ms.last().version) {
            let l = latest->0;
            assert(forall|i: int| 0 <= i < ms.len() ==> ms[i].version <= l);
            lemma_none_due(ms, l);
        }
    }
}

/// Idempotence: after one successful run of a sorted set, an identical
/// second run finds nothing due, reports that nothing was applied, commits
/// no statement, and leaves the bookkeeping exactly as it was — and it
/// cannot raise a version-skew error.
pub proof fn lemma_migrate_idempotent(vs0: Map<Seq<char>, u64>, ns: Seq<char>, ms: Seq<Migration>)
    requires
        sorted_by_version(ms),
        !version_skew(ms, ns_version(vs0, ns)),
    ensures
        ({
            let vs1 = versions_after(vs0, ns, ms);
            let latest1 = ns_version(vs1, ns);
            &&& last_applied(ms, latest1) is None
            &&& applied_set(ms, latest1) == Seq::<Migration>::empty()
            &&& versions_after(vs1, ns, ms) == vs1
            &&& !version_skew(ms, latest1)
        }),
{
    let latest0 = ns_version(vs0, ns);
    let la = last_applied(ms, latest0);
    lemma_last_applied_is_max(ms, latest0);
    if la is Some {
        let v = la->0;
        assert(v == ms.last().version);
        assert(forall|i: int| 0 <= i < ms.len() ==> ms[i].version <= v);
        lemma_none_due(ms, v);
    } else {
        assert(applied_set(ms, latest0) =~= Seq::<Migration>::empty());
    }
}

/// Monotonic, in-order, exactly-once application: on a strictly ascending
/// set, every migration a run executes is due (its version exceeds the
/// persisted latest version), the executed migrations keep their strictly
/// ascending order, no version is executed twice, and each comes from the
/// supplied set.
pub proof fn lemma_apply_exactly_once(ms: Seq<Migration>, latest: Option<u64>)
    requires
        strictly_ascending(ms),
    ensures
        ({
            let ap = applied_set(ms, latest);
            &&& forall|k: int| 0 <= k < ap.len() ==> applies(latest, #[trigger] ap[k].version)
            &&& strictly_ascending(ap)
            &&& forall|k: int| 0 <= k < ap.len() ==> ms.contains(#[trigger] ap[k])
        }),
    decreases ms.len(),
{
    if ms.len() > 0 {
        let prefix = ms.drop_last();
        assert(forall|i: int| 0 <= i < prefix.len() ==> prefix[i] == ms[i]);
        assert(strictly_ascending(prefix));
        lemma_apply_exactly_once(prefix, latest);
        let app = applied_set(prefix, latest);
        let ap = applied_set(ms, latest);
        assert forall|k: int| 0 <= k < app.len() implies ms.contains(#[trigger] app[k]) by {
            let j = choose|j: int| 0 <= j < prefix.len() && prefix[j] == app[k];
            assert(ms[j] == app[k]);
        }
        if applies(latest, ms.last().version) {
            assert(ap == app.push(ms.last()));
            assert forall|a: int, b: int| 0 <= a < b < ap.len() implies
                ap[a].version < ap[b].version by {
                if b < app.len() {
                    assert(app[a].version < app[b].version);
                } else {
                    let j = choose|j: int| 0 <= j < prefix.len() && prefix[j] == app[a];
                    assert(ms[j] == app[a]);
                    assert(ms[j].version < ms.last().version);
                }
            }
            assert(ms[ms.len() - 1] == ms.last());
            assert(ms.contains(ms.last()));
        }
    }
}

/// Namespace isolation: a run under namespace `ns` leaves the version
/// tracked for any other namespace untouched, and what is tracked for other
/// namespaces has no bearing on what a run under `ns` reads.
pub proof fn lemma_namespace_isolation(
    vs: Map<Seq<char>, u64>,
    ns: Seq<char>,
    other: Seq<char>,
    ms: Seq<Migration>,
)
    requires
        ns != other,
    ensures
        ns_version(versions_after(vs, ns, ms), other) == ns_version(vs, other),
        forall|w: u64| ns_version(#[trigger] vs.insert(other, w), ns) == ns_version(vs, ns),
{
}

} // verus!
