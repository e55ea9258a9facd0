//! Timings of the host's convolutions.

use std::time::Instant;
use vstd::prelude::*;

verus! {

/// A moment of the monotonic clock.
#[verifier::external_type_specification]
#[verifier::external_body]
pub struct ExInstant(std::time::Instant);

/// `std::time::Instant::now`. Nothing is claimed of the moment.
#[verifier::external_body]
pub(crate) fn clock_now() -> (r: Instant) {
    Instant::now()
}

/// `std::time::Instant::elapsed`, in whole nanoseconds, of which 64 bits are kept:
/// they last for centuries. Nothing is claimed of the number.
#[verifier::external_body]
pub(crate) fn nanos_since(start: &Instant) -> (r: u64) {
    start.elapsed().as_nanos() as u64
}

/// The shape of one convolution.
#[derive(Clone, Copy, PartialEq, Eq, Structural, Debug)]
pub struct ConvKey {
    pub c_in: usize,
    pub c_out: usize,
    pub h: usize,
    pub w: usize,
    pub act: bool,
}

/// How long one convolution took.
#[derive(Clone, Copy, Debug)]
pub struct ConvTiming {
    pub key: ConvKey,
    pub nanos: u64,
}

/// How the host runs its convolutions, and what it has noted of them.
pub struct HostRun {
    /// The asked-for number of output channels per pass.
    pub oc: Option<usize>,
    /// Are timings kept?
    pub profiling: bool,
    /// The timings kept so far.
    pub timings: Vec<ConvTiming>,
}

/// The shapes of the convolutions that were timed, in order.
pub open spec fn keys(v: Seq<ConvTiming>) -> Seq<ConvKey> {
    v.map_values(|t: ConvTiming| t.key)
}

impl HostRun {
    /// The shapes timed so far.
    pub open spec fn timed(self) -> Seq<ConvKey> {
        keys(self.timings@)
    }

    /// `next` is this run after the convolutions of shapes `ks`: each was timed
    /// if timings are kept, and nothing else changed.
    pub open spec fn ran(self, ks: Seq<ConvKey>, next: HostRun) -> bool {
        &&& next.oc == self.oc
        &&& next.profiling == self.profiling
        &&& self.timings@.len() <= next.timings@.len()
        &&& forall|i: int|
            0 <= i < self.timings@.len() ==> #[trigger] next.timings@[i] == self.timings@[i]
        &&& next.timed() == if self.profiling {
            self.timed() + ks
        } else {
            self.timed()
        }
    }

    /// One run after another.
    pub proof fn lemma_ran(self, a: Seq<ConvKey>, mid: HostRun, b: Seq<ConvKey>, last: HostRun)
        requires
            self.ran(a, mid),
            mid.ran(b, last),
        ensures
            self.ran(a + b, last),
    {
        assert(self.timed() + (a + b) =~= self.timed() + a + b);
    }

    /// A run that has noted nothing yet.
    pub fn new(oc: Option<usize>, profiling: bool) -> (r: HostRun)
        ensures
            r.oc == oc,
            r.profiling == profiling,
            r.timed() == Seq::<ConvKey>::empty(),
    {
        let r = HostRun { oc, profiling, timings: Vec::new() };
        assert(r.timed() =~= Seq::<ConvKey>::empty());
        r
    }
}

/// What one shape took: the time of all its convolutions, and their number.
#[derive(Clone, Copy, PartialEq, Eq, Structural, Debug)]
pub struct ProfileRow {
    pub key: ConvKey,
    pub nanos: u128,
    pub count: usize,
}

/// The time of the convolutions of shape `k` among the first `n`.
pub open spec fn time_of(v: Seq<ConvTiming>, k: ConvKey, n: nat) -> int
    decreases n,
{
    if n == 0 {
        0
    } else {
        time_of(v, k, (n - 1) as nat) + if v[n - 1].key == k {
            v[n - 1].nanos as int
        } else {
            0
        }
    }
}

/// The number of convolutions of shape `k` among the first `n`.
pub open spec fn count_of(v: Seq<ConvTiming>, k: ConvKey, n: nat) -> int
    decreases n,
{
    if n == 0 {
        0
    } else {
        count_of(v, k, (n - 1) as nat) + if v[n - 1].key == k {
            1int
        } else {
            0
        }
    }
}

/// The time of the first `n` convolutions.
pub open spec fn time_of_all(v: Seq<ConvTiming>, n: nat) -> int
    decreases n,
{
    if n == 0 {
        0
    } else {
        time_of_all(v, (n - 1) as nat) + v[n - 1].nanos
    }
}

/// The rows group the first `n` timings: one row for every shape among them, with
/// its time and number.
pub open spec fn grouped(v: Seq<ConvTiming>, n: nat, rows: Seq<ProfileRow>) -> bool {
    &&& forall|i: int, j: int|
        0 <= i < rows.len() && 0 <= j < rows.len() && i != j ==> (#[trigger] rows[i]).key != (
        #[trigger] rows[j]).key
    &&& forall|i: int|
        0 <= i < rows.len() ==> {
            &&& (#[trigger] rows[i]).count > 0
            &&& rows[i].nanos == time_of(v, rows[i].key, n)
            &&& rows[i].count == count_of(v, rows[i].key, n)
        }
    &&& forall|t: int| 0 <= t < n ==> has_row(rows, (#[trigger] v[t]).key)
}

/// There is a row of shape `k`.
pub open spec fn has_row(rows: Seq<ProfileRow>, k: ConvKey) -> bool {
    exists|i: int| 0 <= i < rows.len() && (#[trigger] rows[i]).key == k
}

/// The longest time comes first.
pub open spec fn heaviest_first(rows: Seq<ProfileRow>) -> bool {
    forall|i: int, j: int|
        0 <= i < j < rows.len() ==> (#[trigger] rows[i]).nanos >= (#[trigger] rows[j]).nanos
}

/// A shape that has not come yet took no time.
proof fn lemma_absent(v: Seq<ConvTiming>, k: ConvKey, n: nat)
    requires
        forall|t: int| 0 <= t < n ==> (#[trigger] v[t]).key != k,
    ensures
        time_of(v, k, n) == 0,
        count_of(v, k, n) == 0,
    decreases n,
{
    if n > 0 {
        lemma_absent(v, k, (n - 1) as nat);
    }
}

/// Times and numbers can be held.
proof fn lemma_held(v: Seq<ConvTiming>, k: ConvKey, n: nat)
    ensures
        0 <= time_of(v, k, n) <= n * u64::MAX,
        0 <= count_of(v, k, n) <= n,
        0 <= time_of_all(v, n) <= n * u64::MAX,
    decreases n,
{
    if n > 0 {
        lemma_held(v, k, (n - 1) as nat);
        let m = (n - 1) as nat;
        assert(n * u64::MAX == m * u64::MAX + u64::MAX) by (nonlinear_arith)
            requires
                n == m + 1,
        ;
    }
}

/// One row for every shape that was timed, in the order the shapes came.
fn group(v: &[ConvTiming]) -> (rows: Vec<ProfileRow>)
    ensures
        grouped(v@, v@.len(), rows@),
{
    let mut rows: Vec<ProfileRow> = Vec::new();
    let mut n: usize = 0;
    while n < v.len()
        invariant
            n <= v@.len(),
            grouped(v@, n as nat, rows@),
        decreases v@.len() - n,
    {
        let t = v[n];
        let ghost was = rows@;
        let ghost m = (n + 1) as nat;
        let mut i: usize = 0;
        while i < rows.len() && rows[i].key != t.key
            invariant
                i <= rows@.len(),
                rows@ == was,
                forall|j: int| 0 <= j < i ==> (#[trigger] rows@[j]).key != t.key,
            decreases rows@.len() - i,
        {
            i += 1;
        }
        proof {
            lemma_held(v@, t.key, n as nat);
            lemma_held(v@, t.key, m);
            assert((m - 1) as nat == n as nat);
            assert(v.len() == v@.len());
            assert(m * u64::MAX <= u128::MAX) by (nonlinear_arith)
                requires
                    m <= u64::MAX,
            ;
        }
        if i < rows.len() {
            let row = rows[i];
            rows[i] = ProfileRow {
                key: row.key,
                nanos: row.nanos + t.nanos as u128,
                count: row.count + 1,
            };
        } else {
            proof {
                assert forall|q: int| 0 <= q < n implies (#[trigger] v@[q]).key != t.key by {
                    assert(has_row(was, v@[q].key));
                }
                lemma_absent(v@, t.key, n as nat);
            }
            rows.push(ProfileRow { key: t.key, nanos: t.nanos as u128, count: 1 });
        }
        proof {
            assert forall|q: int| 0 <= q < m implies has_row(rows@, (#[trigger] v@[q]).key) by {
                if q < n {
                    assert(has_row(was, v@[q].key));
                    let j = choose|j: int| 0 <= j < was.len() && (#[trigger] was[j]).key == v@[q].key;
                    assert(rows@[j].key == v@[q].key);
                } else {
                    assert(rows@[i as int].key == v@[q].key);
                }
            }
        }
        n += 1;
    }
    rows
}

/// The profile's rows: one for every shape that was timed, with the time of all
/// its convolutions and their number, the longest time first.
pub fn profile_rows(v: &[ConvTiming]) -> (rows: Vec<ProfileRow>)
    ensures
        grouped(v@, v@.len(), rows@),
        heaviest_first(rows@),
{
    let mut rows = group(v);
    let n = rows.len();
    let mut i: usize = 0;
    while i < n
        invariant
            n == rows@.len(),
            i <= n,
            grouped(v@, v@.len(), rows@),
            forall|a: int, b: int|
                0 <= a < b < n && a < i ==> (#[trigger] rows@[a]).nanos >= (
                #[trigger] rows@[b]).nanos,
        decreases n - i,
    {
        let mut best: usize = i;
        let mut j: usize = i + 1;
        while j < n
            invariant
                n == rows@.len(),
                i <= best < n,
                i < j <= n,
                forall|b: int|
                    i <= b < j ==> rows@[best as int].nanos >= (#[trigger] rows@[b]).nanos,
            decreases n - j,
        {
            if rows[j].nanos > rows[best].nanos {
                best = j;
            }
            j += 1;
        }
        let ghost was = rows@;
        let (a, b) = (rows[i], rows[best]);
        rows[i] = b;
        rows[best] = a;
        proof {
            assert forall|t: int| 0 <= t < v@.len() implies has_row(
                rows@,
                (#[trigger] v@[t]).key,
            ) by {
                assert(has_row(was, v@[t].key));
                let k = choose|k: int| 0 <= k < was.len() && (#[trigger] was[k]).key == v@[t].key;
                let k2 = if k == i {
                    best as int
                } else if k == best {
                    i as int
                } else {
                    k
                };
                assert(rows@[k2].key == v@[t].key);
            }
        }
        i += 1;
    }
    rows
}

/// The time of all convolutions.
pub fn profile_total(v: &[ConvTiming]) -> (r: u128)
    ensures
        r == time_of_all(v@, v@.len()),
{
    let mut sum: u128 = 0;
    let mut n: usize = 0;
    while n < v.len()
        invariant
            n <= v@.len(),
            sum == time_of_all(v@, n as nat),
        decreases v@.len() - n,
    {
        proof {
            let m = (n + 1) as nat;
            let k = v@[n as int].key;
            lemma_held(v@, k, m);
            assert((m - 1) as nat == n as nat);
            assert(v.len() == v@.len());
            assert(m * u64::MAX <= u128::MAX) by (nonlinear_arith)
                requires
                    m <= u64::MAX,
            ;
        }
        sum = sum + v[n].nanos as u128;
        n += 1;
    }
    sum
}

/// The times that the first `m` rows' shapes took among the first `n`
/// convolutions, together.
pub open spec fn rows_time(v: Seq<ConvTiming>, n: nat, rows: Seq<ProfileRow>, m: nat) -> int
    decreases m,
{
    if m == 0 {
        0
    } else {
        rows_time(v, n, rows, (m - 1) as nat) + time_of(v, rows[m - 1].key, n)
    }
}

/// One more convolution adds its time to the one row that has its shape.
proof fn lemma_rows_step(v: Seq<ConvTiming>, n: nat, rows: Seq<ProfileRow>, m: nat, at: int)
    requires
        0 < n <= v.len(),
        m <= rows.len(),
        0 <= at < rows.len(),
        rows[at].key == v[n - 1].key,
        forall|i: int, j: int|
            0 <= i < rows.len() && 0 <= j < rows.len() && i != j ==> (#[trigger] rows[i]).key != (
            #[trigger] rows[j]).key,
    ensures
        rows_time(v, n, rows, m) == rows_time(v, (n - 1) as nat, rows, m) + if at < m {
            v[n - 1].nanos as int
        } else {
            0
        },
    decreases m,
{
    if m > 0 {
        lemma_rows_step(v, n, rows, (m - 1) as nat, at);
    }
}

proof fn lemma_rows_total(v: Seq<ConvTiming>, n: nat, rows: Seq<ProfileRow>)
    requires
        n <= v.len(),
        grouped(v, v.len(), rows),
    ensures
        rows_time(v, n, rows, rows.len()) == time_of_all(v, n),
    decreases n,
{
    if n > 0 {
        lemma_rows_total(v, (n - 1) as nat, rows);
        assert(has_row(rows, v[n - 1].key));
        let at = choose|i: int| 0 <= i < rows.len() && (#[trigger] rows[i]).key == v[n - 1].key;
        lemma_rows_step(v, n, rows, rows.len(), at);
    } else {
        lemma_no_time(v, rows, rows.len());
    }
}

proof fn lemma_no_time(v: Seq<ConvTiming>, rows: Seq<ProfileRow>, m: nat)
    ensures
        rows_time(v, 0, rows, m) == 0,
    decreases m,
{
    if m > 0 {
        lemma_no_time(v, rows, (m - 1) as nat);
    }
}

/// The rows' times add up to the time of all convolutions, so their shares make
/// the whole.
pub proof fn rows_make_the_total(v: Seq<ConvTiming>, rows: Seq<ProfileRow>)
    requires
        grouped(v, v.len(), rows),
    ensures
        rows_time(v, v.len(), rows, rows.len()) == time_of_all(v, v.len()),
{
    lemma_rows_total(v, v.len(), rows);
}

} // verus!
