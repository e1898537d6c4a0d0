use vstd::prelude::*;

use crate::migration::Migration;

verus! {

/// The versions of `ms` never decrease from left to right.
pub open spec fn sorted_by_version(ms: Seq<Migration>) -> bool {
    forall|i: int, j: int| 0 <= i < j < ms.len() ==> ms[i].version <= ms[j].version
}

/// The versions of `ms` strictly increase from left to right, so no two
/// entries share a version.
pub open spec fn strictly_ascending(ms: Seq<Migration>) -> bool {
    forall|i: int, j: int| 0 <= i < j < ms.len() ==> ms[i].version < ms[j].version
}

/// A sequence of migrations held in ascending version order.
///
/// The ordering guarantee is the type's entire reason for existing: the
/// runner's skip/apply algorithm is only meaningful when it sees versions in
/// ascending order. Each constructor states in its contract exactly which
/// ordering it establishes.
pub struct OrderedArray {
    items: Vec<Migration>,
}

impl View for OrderedArray {
    type V = Seq<Migration>;

    closed spec fn view(&self) -> Seq<Migration> {
        self.items@
    }
}

impl OrderedArray {
    /// Every value of this type holds its migrations in non-decreasing
    /// version order; the validating and trusted constructors guarantee
    /// strictly ascending order on top of this.
    #[verifier::type_invariant]
    spec fn well_ordered(&self) -> bool {
        sorted_by_version(self.items@)
    }

    /// Validating construction: succeeds exactly when the input is already in
    /// strictly ascending version order, scanning left to right. Out-of-order
    /// input and duplicate versions are both rejected, with no partial result.
    pub fn try_new(items: Vec<Migration>) -> (r: Option<OrderedArray>)
        ensures
            match r {
                Some(a) => a@ == items@ && strictly_ascending(items@),
                None => !strictly_ascending(items@),
            },
    {
        let n = items.len();
        if n == 0 {
            return Some(OrderedArray { items });
        }
        let mut i: usize = 1;
        while i < n
            invariant
                1 <= i <= n,
                n == items@.len(),
                strictly_ascending(items@.subrange(0, i as int)),
            decreases n - i,
        {
            if items[i - 1].version >= items[i].version {
                proof {
                    let v = items@;
                    assert(!(v[i - 1].version < v[i as int].version));
                    assert(!strictly_ascending(v));
                }
                return None;
            }
            proof {
                let v = items@;
                let pre = v.subrange(0, i as int);
                let cur = v.subrange(0, i + 1);
                assert forall|a: int, b: int| 0 <= a < b < cur.len() implies
                    cur[a].version < cur[b].version by {
                    if b < i {
                        assert(pre[a].version < pre[b].version);
                    } else {
                        if a < i - 1 {
                            assert(pre[a].version < pre[i - 1].version);
                        }
                    }
                }
            }
            i += 1;
        }
        proof {
            assert(items@.subrange(0, n as int) =~= items@);
        }
        Some(OrderedArray { items })
    }

    /// Trusted construction: wraps the input with no check at all, under the
    /// documented precondition that strict ascending order was already
    /// established elsewhere (for example by a build step that sorted once).
    pub fn new_unchecked(items: Vec<Migration>) -> (r: OrderedArray)
        requires
            strictly_ascending(items@),
        ensures
            r@ == items@,
    {
        OrderedArray { items }
    }

    /// Sort-based construction: sorts the input ascending by version, with no
    /// tie-break guarantee among entries that share a version, then wraps it
    /// without further validation. Duplicate versions are deliberately kept,
    /// so the result is only guaranteed to be non-decreasing.
    pub fn from_unsorted(items: Vec<Migration>) -> (r: OrderedArray)
        ensures
            sorted_by_version(r@),
            r@.to_multiset() == items@.to_multiset(),
    {
        let sorted = sort_by_version_exec(items);
        OrderedArray { items: sorted }
    }

    /// Read-only forward view of the migrations: ascending version order.
    pub fn iter(&self) -> (r: &[Migration])
        ensures
            r@ == self@,
            sorted_by_version(r@),
    {
        proof {
            use_type_invariant(&*self);
        }
        self.items.as_slice()
    }

    /// Borrow of the underlying contiguous sequence, in ascending version
    /// order, for interoperability without copying.
    pub fn as_slice(&self) -> (r: &[Migration])
        ensures
            r@ == self@,
            sorted_by_version(r@),
    {
        proof {
            use_type_invariant(&*self);
        }
        self.items.as_slice()
    }

    /// Number of migrations held.
    pub fn len(&self) -> (r: usize)
        ensures
            r == self@.len(),
    {
        self.items.len()
    }
}

/// Index of a migration with the smallest version in `v`.
fn index_of_min(v: &Vec<Migration>) -> (k: usize)
    requires
        v@.len() > 0,
    ensures
        k < v@.len(),
        forall|i: int| 0 <= i < v@.len() ==> v@[k as int].version <= v@[i].version,
{
    let mut k: usize = 0;
    let mut i: usize = 1;
    let n = v.len();
    while i < n
        invariant
            n == v@.len(),
            k < i <= n || (k == 0 && i == 1 && n >= 1),
            k < n,
            forall|j: int| 0 <= j < i ==> v@[k as int].version <= v@[j].version,
        decreases n - i,
    {
        if v[i].version < v[k].version {
            k = i;
        }
        i += 1;
    }
    k
}

/// Selection sort by version: repeatedly moves a migration with the smallest
/// remaining version to the output. Ascending, not stable among equal
/// versions, and a permutation of the input.
fn sort_by_version_exec(items: Vec<Migration>) -> (r: Vec<Migration>)
    ensures
        sorted_by_version(r@),
        r@.to_multiset() == items@.to_multiset(),
{
    let ghost orig = items@;
    let mut rest = items;
    let mut out: Vec<Migration> = Vec::new();
    proof {
        broadcast use vstd::multiset::group_multiset_axioms;

        vstd::seq_lib::to_multiset_len(out@);
        vstd::multiset::lemma_multiset_empty_len(out@.to_multiset());
        assert(out@.to_multiset().add(rest@.to_multiset()) =~= orig.to_multiset());
    }
    while rest.len() > 0
        invariant
            sorted_by_version(out@),
            out@.to_multiset().add(rest@.to_multiset()) == orig.to_multiset(),
            forall|i: int, j: int|
                0 <= i < out@.len() && 0 <= j < rest@.len()
                    ==> out@[i].version <= rest@[j].version,
        decreases rest@.len(),
    {
        let ghost out0 = out@;
        let ghost rest0 = rest@;
        let k = index_of_min(&rest);
        let m = rest.remove(k);
        out.push(m);
        proof {
            broadcast use vstd::multiset::group_multiset_axioms;

            assert(rest0.contains(m));
            vstd::seq_lib::to_multiset_contains(rest0, m);
            vstd::seq_lib::to_multiset_build(out0, m);
            vstd::seq_lib::to_multiset_remove(rest0, k as int);
            assert(out@ == out0.push(m));
            assert(out@.to_multiset() == out0.to_multiset().insert(m));
            assert(rest@.to_multiset() == rest0.to_multiset().remove(m));
            assert(out@.to_multiset().add(rest@.to_multiset()) =~= orig.to_multiset());
            assert forall|i: int, j: int|
                0 <= i < out@.len() && 0 <= j < rest@.len() implies
                out@[i].version <= rest@[j].version by {
                if j < k {
                    assert(rest@[j] == rest0[j]);
                } else {
                    assert(rest@[j] == rest0[j + 1]);
                }
                if i < out0.len() {
                    assert(out@[i] == out0[i]);
                } else {
                    assert(out@[i] == m);
                }
            }
            assert forall|a: int, b: int| 0 <= a < b < out@.len() implies
                out@[a].version <= out@[b].version by {
                if b < out0.len() {
                    assert(out0[a].version <= out0[b].version);
                } else {
                    assert(out@[b] == m);
                    assert(out0[a].version <= rest0[k as int].version);
                }
            }
        }
    }
    proof {
        broadcast use vstd::multiset::group_multiset_axioms;

        vstd::seq_lib::to_multiset_len(rest@);
        assert(rest@.to_multiset().len() == 0);
        assert(out@.to_multiset().add(rest@.to_multiset()) =~= out@.to_multiset());
    }
    out
}

} // verus!
