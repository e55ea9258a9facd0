//! The profile, spelled out.

use vstd::prelude::*;

use crate::profile::count_of;
use crate::profile::has_row;
use crate::profile::profile_rows;
use crate::profile::profile_total;
use crate::profile::time_of;
use crate::profile::time_of_all;
use crate::profile::ConvKey;
use crate::profile::ConvTiming;
use crate::profile::HostRun;
use crate::profile::ProfileRow;

verus! {

/// The timings of one shape.
pub open spec fn of_shape(v: Seq<ConvTiming>, k: ConvKey) -> Seq<ConvTiming> {
    v.filter(|t: ConvTiming| t.key == k)
}

/// The time of all these together.
pub open spec fn together(v: Seq<ConvTiming>) -> int {
    v.fold_left(0int, |sum: int, t: ConvTiming| sum + t.nanos)
}

/// One of the rows is of shape `k`.
pub open spec fn is_listed(rows: Seq<ProfileRow>, k: ConvKey) -> bool {
    exists|i: int| 0 <= i < rows.len() && (#[trigger] rows[i]).key == k
}

proof fn lemma_together_push(v: Seq<ConvTiming>, t: ConvTiming)
    ensures
        together(v.push(t)) == together(v) + t.nanos,
{
    assert(v.push(t).drop_last() =~= v);
}

proof fn lemma_tally(v: Seq<ConvTiming>, k: ConvKey, n: nat)
    requires
        n <= v.len(),
    ensures
        count_of(v, k, n) == of_shape(v.take(n as int), k).len(),
        time_of(v, k, n) == together(of_shape(v.take(n as int), k)),
        time_of_all(v, n) == together(v.take(n as int)),
    decreases n,
{
    reveal(Seq::filter);
    if n > 0 {
        let m = (n - 1) as nat;
        lemma_tally(v, k, m);
        let (a, t) = (v.take(m as int), v[n - 1]);
        assert(v.take(n as int) =~= a.push(t));
        assert(a.push(t).drop_last() =~= a);
        lemma_together_push(a, t);
        lemma_together_push(of_shape(a, k), t);
    } else {
        assert(v.take(0) =~= Seq::<ConvTiming>::empty());
    }
}

/// The profile has one row for every shape that was timed: the row's number is that of
/// the timings of its shape, and its time is their sum. The longest time comes first.
pub proof fn rows_are_sums_by_shape(v: &[ConvTiming], rows: Vec<ProfileRow>)
    requires
        call_ensures(profile_rows, (v,), rows),
    ensures
        forall|i: int|
            0 <= i < rows@.len() ==> {
                let k = (#[trigger] rows@[i]).key;
                &&& rows@[i].count > 0
                &&& rows@[i].count == v@.filter(|t: ConvTiming| t.key == k).len()
                &&& rows@[i].nanos == together(of_shape(v@, k))
            },
        forall|t: int|
            0 <= t < v@.len() ==> is_listed(rows@, (#[trigger] v@[t]).key),
        forall|i: int, j: int|
            0 <= i < j < rows@.len() ==> {
                &&& (#[trigger] rows@[i]).key != (#[trigger] rows@[j]).key
                &&& rows@[i].nanos >= rows@[j].nanos
            },
{
    assert(v@.take(v@.len() as int) =~= v@);
    assert forall|i: int| 0 <= i < rows@.len() implies {
        let k = (#[trigger] rows@[i]).key;
        &&& rows@[i].count > 0
        &&& rows@[i].count == v@.filter(|t: ConvTiming| t.key == k).len()
        &&& rows@[i].nanos == together(of_shape(v@, k))
    } by {
        lemma_tally(v@, rows@[i].key, v@.len());
    }
    assert forall|t: int| 0 <= t < v@.len() implies is_listed(rows@, (#[trigger] v@[t]).key) by {
        assert(has_row(rows@, v@[t].key));
    }
}

/// The total is the sum of all timings.
pub proof fn total_is_the_sum_of_all(v: &[ConvTiming], r: u128)
    requires
        call_ensures(profile_total, (v,), r),
    ensures
        r == v@.fold_left(0int, |sum: int, t: ConvTiming| sum + t.nanos),
{
    assert(v@.take(v@.len() as int) =~= v@);
    if v@.len() > 0 {
        lemma_tally(v@, v@[0].key, v@.len());
    }
}

/// A new run has noted nothing.
pub proof fn new_runs_are_empty(oc: Option<usize>, profiling: bool, r: HostRun)
    requires
        call_ensures(HostRun::new, (oc, profiling), r),
    ensures
        r.oc == oc && r.profiling == profiling,
        r.timings@.len() == 0,
{
    assert(r.timed().len() == r.timings@.len());
}

} // verus!
