//! Rates and shares derived from two snapshots of the same counters.
//!
//! Policies. Where no tick passed between two rows of processor counters, every
//! share of that row is reported as zero of one: a defined value, no error.
//! Where any counter of a row is smaller in the later snapshot, or a traffic
//! total is, the result is `CounterRegressed`: nothing is clamped. Where the
//! elapsed time handed to the network computation is zero, the result is
//! `ZeroElapsedDelta`.
use vstd::prelude::*;
use crate::snapshot::{has_arity, Family, SampleError, Snapshot};

verus! {

/// An exact quotient of two counters, `num / den`, with `den > 0`.
#[derive(Clone, Copy, Debug, PartialEq, Eq, Structural)]
pub struct Ratio {
    pub num: u128,
    pub den: u128,
}

/// How one processor row spent the ticks between two snapshots. Each field is
/// the fraction of the elapsed ticks that went to one category; a hundred times
/// that fraction is the percentage. `total` is the fraction that was not idle.
#[derive(Copy, Debug, PartialEq, Eq, Structural)]
pub struct ProcessorUsage {
    pub total: Ratio,
    pub user: Ratio,
    pub nice: Ratio,
    pub system: Ratio,
    pub idle: Ratio,
    pub iowait: Ratio,
    pub interrupt: Ratio,
    pub soft_interrupt: Ratio,
}

impl Clone for ProcessorUsage {
    fn clone(&self) -> (r: ProcessorUsage)
        ensures
            r == *self,
    {
        ProcessorUsage {
            total: self.total,
            user: self.user,
            nice: self.nice,
            system: self.system,
            idle: self.idle,
            iowait: self.iowait,
            interrupt: self.interrupt,
            soft_interrupt: self.soft_interrupt,
        }
    }
}

/// Processor usage of the whole machine and of each processor.
#[derive(Debug, PartialEq, Eq)]
pub struct CpuUsage {
    pub average: ProcessorUsage,
    pub processors: Vec<ProcessorUsage>,
}

/// The mathematical content of a [`CpuUsage`].
pub struct CpuUsageView {
    pub average: ProcessorUsage,
    pub processors: Seq<ProcessorUsage>,
}

impl View for CpuUsage {
    type V = CpuUsageView;

    open spec fn view(&self) -> CpuUsageView {
        CpuUsageView { average: self.average, processors: self.processors@ }
    }
}

/// Traffic of all interfaces together, in counter units per millisecond of
/// elapsed time. A thousand times a ratio is the rate per second.
#[derive(Clone, Copy, Debug, PartialEq, Eq, Structural)]
pub struct NetworkRate {
    pub download: Ratio,
    pub upload: Ratio,
}

/// The sum of the counters of a row.
pub open spec fn sum(row: Seq<usize>) -> int
    decreases row.len(),
{
    if row.len() == 0 {
        0
    } else {
        sum(row.drop_last()) + row.last()
    }
}

/// Whether some counter of the row is smaller after than before.
pub open spec fn regressed(before: Seq<usize>, after: Seq<usize>) -> bool {
    exists|c: int| 0 <= c < before.len() && c < after.len() && #[trigger] after[c] < before[c]
}

/// `part` of `whole` ticks as a ratio; zero of one where no tick passed.
pub open spec fn share(part: int, whole: int) -> Ratio {
    if whole == 0 {
        Ratio { num: 0, den: 1 }
    } else {
        Ratio { num: part as u128, den: whole as u128 }
    }
}

/// The usage that two rows of processor counters show. The elapsed ticks are
/// the difference of the rows' sums; the categories are the first seven
/// counters, in the kernel's order.
pub open spec fn usage_between(before: Seq<usize>, after: Seq<usize>) -> ProcessorUsage {
    let whole = sum(after) - sum(before);
    ProcessorUsage {
        total: share(whole - (after[3] - before[3]), whole),
        user: share(after[0] - before[0], whole),
        nice: share(after[1] - before[1], whole),
        system: share(after[2] - before[2], whole),
        idle: share(after[3] - before[3], whole),
        iowait: share(after[4] - before[4], whole),
        interrupt: share(after[5] - before[5], whole),
        soft_interrupt: share(after[6] - before[6], whole),
    }
}

/// The usage in which every share is zero.
pub open spec fn no_usage() -> ProcessorUsage {
    let zero = Ratio { num: 0, den: 1 };
    ProcessorUsage {
        total: zero,
        user: zero,
        nice: zero,
        system: zero,
        idle: zero,
        iowait: zero,
        interrupt: zero,
        soft_interrupt: zero,
    }
}

/// Whether two rows can be compared: equally long, with the seven categories.
pub open spec fn row_shape_ok(before: Seq<usize>, after: Seq<usize>) -> bool {
    before.len() == after.len() && before.len() >= Family::Cpu.min_counters()
}

/// Whether two processor snapshots can be compared: the same number of rows,
/// at least the row of the whole machine, and each pair of rows comparable.
pub open spec fn cpu_shape_ok(before: Seq<Seq<usize>>, after: Seq<Seq<usize>>) -> bool {
    &&& before.len() == after.len()
    &&& before.len() >= 1
    &&& forall|i: int| 0 <= i < before.len() ==> row_shape_ok(#[trigger] before[i], after[i])
}

/// Whether some row of the later snapshot holds a counter that went down.
pub open spec fn any_regressed(before: Seq<Seq<usize>>, after: Seq<Seq<usize>>) -> bool {
    exists|i: int|
        0 <= i < before.len() && i < after.len() && regressed(#[trigger] before[i], after[i])
}

/// What two processor snapshots show: the first row as the average, the others
/// as the processors, in order; or why they show nothing.
pub open spec fn cpu_delta(before: Seq<Seq<usize>>, after: Seq<Seq<usize>>) -> Result<
    CpuUsageView,
    SampleError,
> {
    if !cpu_shape_ok(before, after) {
        Err(SampleError::SnapshotShapeMismatch)
    } else if any_regressed(before, after) {
        Err(SampleError::CounterRegressed)
    } else {
        Ok(
            CpuUsageView {
                average: usage_between(before[0], after[0]),
                processors: Seq::new(
                    (before.len() - 1) as nat,
                    |i: int| usage_between(before[i + 1], after[i + 1]),
                ),
            },
        )
    }
}

/// Adding a counter to a row adds it to the row's sum.
pub proof fn lemma_sum_take(row: Seq<usize>, c: int)
    requires
        0 <= c < row.len(),
    ensures
        sum(row.take(c + 1)) == sum(row.take(c)) + row[c],
{
    assert(row.take(c + 1).drop_last() =~= row.take(c));
}

/// The usage between two comparable rows, or `None` where a counter went down.
pub fn row_usage(before: &Vec<usize>, after: &Vec<usize>) -> (r: Option<ProcessorUsage>)
    requires
        row_shape_ok(before@, after@),
    ensures
        r.is_none() <==> regressed(before@, after@),
        r matches Some(u) ==> u == usage_between(before@, after@) && within_whole(u),
{
    let n = before.len();
    let mut whole: u128 = 0;
    let mut c: usize = 0;
    while c < n
        invariant
            c <= n,
            n == before.len(),
            n == after.len(),
            n >= 7,
            forall|j: int| 0 <= j < c ==> before@[j] <= #[trigger] after@[j],
            whole == sum(after@.take(c as int)) - sum(before@.take(c as int)),
            whole <= c * 0xFFFF_FFFF_FFFF_FFFF,
            forall|j: int| 0 <= j < c ==> after@[j] - before@[j] <= whole,
        decreases n - c,
    {
        if after[c] < before[c] {
            return None;
        }
        proof {
            lemma_sum_take(before@, c as int);
            lemma_sum_take(after@, c as int);
        }
        whole = whole + (after[c] - before[c]) as u128;
        c += 1;
    }
    proof {
        assert(before@.take(n as int) =~= before@);
        assert(after@.take(n as int) =~= after@);
        assert(!regressed(before@, after@));
    }
    if whole == 0 {
        let zero = Ratio { num: 0, den: 1 };
        return Some(
            ProcessorUsage {
                total: zero,
                user: zero,
                nice: zero,
                system: zero,
                idle: zero,
                iowait: zero,
                interrupt: zero,
                soft_interrupt: zero,
            },
        );
    }
    let idle: u128 = (after[3] - before[3]) as u128;
    Some(
        ProcessorUsage {
            total: Ratio { num: whole - idle, den: whole },
            user: Ratio { num: (after[0] - before[0]) as u128, den: whole },
            nice: Ratio { num: (after[1] - before[1]) as u128, den: whole },
            system: Ratio { num: (after[2] - before[2]) as u128, den: whole },
            idle: Ratio { num: idle, den: whole },
            iowait: Ratio { num: (after[4] - before[4]) as u128, den: whole },
            interrupt: Ratio { num: (after[5] - before[5]) as u128, den: whole },
            soft_interrupt: Ratio { num: (after[6] - before[6]) as u128, den: whole },
        },
    )
}

/// Whether every share of a usage is a fraction between zero and one.
pub open spec fn within_whole(u: ProcessorUsage) -> bool {
    &&& u.total.den > 0 && u.total.num <= u.total.den
    &&& u.user.den > 0 && u.user.num <= u.user.den
    &&& u.nice.den > 0 && u.nice.num <= u.nice.den
    &&& u.system.den > 0 && u.system.num <= u.system.den
    &&& u.idle.den > 0 && u.idle.num <= u.idle.den
    &&& u.iowait.den > 0 && u.iowait.num <= u.iowait.den
    &&& u.interrupt.den > 0 && u.interrupt.num <= u.interrupt.den
    &&& u.soft_interrupt.den > 0 && u.soft_interrupt.num <= u.soft_interrupt.den
}

/// Whether two snapshots of processor counters can be compared.
pub fn cpu_shapes_match(before: &Snapshot, after: &Snapshot) -> (r: bool)
    ensures
        r == cpu_shape_ok(before@, after@),
{
    let n = before.rows.len();
    if n != after.rows.len() || n == 0 {
        return false;
    }
    let least = Family::Cpu.least_counters();
    let mut i: usize = 0;
    while i < n
        invariant
            i <= n,
            n == before.rows.len(),
            n == after.rows.len(),
            least == Family::Cpu.min_counters(),
            forall|j: int| 0 <= j < i ==> row_shape_ok(#[trigger] before@[j], after@[j]),
        decreases n - i,
    {
        if before.rows[i].len() != after.rows[i].len() || before.rows[i].len() < least {
            assert(!row_shape_ok(before@[i as int], after@[i as int]));
            return false;
        }
        i += 1;
    }
    true
}

/// Derives processor usage from two snapshots of the processor counters.
pub fn compute_cpu_delta(before: &Snapshot, after: &Snapshot) -> (r: Result<CpuUsage, SampleError>)
    ensures
        match r {
            Ok(u) => cpu_delta(before@, after@) == Ok::<CpuUsageView, SampleError>(u@)
                && within_whole(u.average)
                && forall|i: int|
                0 <= i < u.processors.len() ==> within_whole(#[trigger] u.processors[i]),
            Err(e) => cpu_delta(before@, after@) == Err::<CpuUsageView, SampleError>(e),
        },
{
    if !cpu_shapes_match(before, after) {
        return Err(SampleError::SnapshotShapeMismatch);
    }
    let n = before.rows.len();
    assert(row_shape_ok(before@[0], after@[0]));
    let average = match row_usage(&before.rows[0], &after.rows[0]) {
        Some(u) => u,
        None => {
            assert(regressed(before@[0], after@[0]));
            return Err(SampleError::CounterRegressed);
        },
    };
    let mut processors: Vec<ProcessorUsage> = Vec::new();
    let mut i: usize = 1;
    while i < n
        invariant
            1 <= i <= n,
            n == before.rows.len(),
            cpu_shape_ok(before@, after@),
            forall|j: int| 0 <= j < i ==> !regressed(#[trigger] before@[j], after@[j]),
            processors@.len() == i - 1,
            forall|j: int|
                0 <= j < i - 1 ==> #[trigger] processors@[j] == usage_between(
                    before@[j + 1],
                    after@[j + 1],
                ),
            forall|j: int| 0 <= j < i - 1 ==> within_whole(#[trigger] processors@[j]),
        decreases n - i,
    {
        assert(row_shape_ok(before@[i as int], after@[i as int]));
        match row_usage(&before.rows[i], &after.rows[i]) {
            Some(u) => {
                processors.push(u);
            },
            None => {
                assert(regressed(before@[i as int], after@[i as int]));
                return Err(SampleError::CounterRegressed);
            },
        }
        i += 1;
    }
    let usage = CpuUsage { average, processors };
    proof {
        assert(!any_regressed(before@, after@));
        assert(cpu_delta(before@, after@).unwrap().processors =~= usage@.processors);
    }
    Ok(usage)
}

/// The sum of counter `c` over the rows of a snapshot.
pub open spec fn column_sum(rows: Seq<Seq<usize>>, c: int) -> int
    decreases rows.len(),
{
    if rows.len() == 0 {
        0
    } else {
        column_sum(rows.drop_last(), c) + rows.last()[c]
    }
}

/// The received bytes of all interfaces of a snapshot together.
pub open spec fn received(rows: Seq<Seq<usize>>) -> int {
    column_sum(rows, 0)
}

/// The transmitted bytes of all interfaces of a snapshot together.
pub open spec fn transmitted(rows: Seq<Seq<usize>>) -> int {
    column_sum(rows, 8)
}

/// Whether two snapshots of the interface counters can be compared: the same
/// number of rows, each with the counters up to the transmitted bytes.
pub open spec fn network_shape_ok(before: Seq<Seq<usize>>, after: Seq<Seq<usize>>) -> bool {
    &&& before.len() == after.len()
    &&& has_arity(before, Family::Network)
    &&& has_arity(after, Family::Network)
}

/// The rate that two pairs of traffic totals show over `elapsed_ms`
/// milliseconds, each pair being received and transmitted bytes.
pub open spec fn rate_between(before: (int, int), after: (int, int), elapsed_ms: int) -> Result<
    NetworkRate,
    SampleError,
> {
    if elapsed_ms == 0 {
        Err(SampleError::ZeroElapsedDelta)
    } else if after.0 < before.0 || after.1 < before.1 {
        Err(SampleError::CounterRegressed)
    } else {
        Ok(
            NetworkRate {
                download: Ratio { num: (after.0 - before.0) as u128, den: elapsed_ms as u128 },
                upload: Ratio { num: (after.1 - before.1) as u128, den: elapsed_ms as u128 },
            },
        )
    }
}

/// What two snapshots of the interface counters show over `elapsed_ms`
/// milliseconds, or why they show nothing.
pub open spec fn network_delta(
    before: Seq<Seq<usize>>,
    after: Seq<Seq<usize>>,
    elapsed_ms: int,
) -> Result<NetworkRate, SampleError> {
    if !network_shape_ok(before, after) {
        Err(SampleError::SnapshotShapeMismatch)
    } else {
        rate_between(
            (received(before), transmitted(before)),
            (received(after), transmitted(after)),
            elapsed_ms,
        )
    }
}

/// Whether every row of the snapshot holds at least the counters of `family`.
pub fn rows_have_arity(snapshot: &Snapshot, family: Family) -> (r: bool)
    ensures
        r == has_arity(snapshot@, family),
{
    let least = family.least_counters();
    let mut i: usize = 0;
    while i < snapshot.rows.len()
        invariant
            i <= snapshot.rows.len(),
            least == family.min_counters(),
            forall|j: int| 0 <= j < i ==> (#[trigger] snapshot@[j]).len() >= least,
        decreases snapshot.rows.len() - i,
    {
        if snapshot.rows[i].len() < least {
            assert(snapshot@[i as int].len() < least);
            return false;
        }
        i += 1;
    }
    true
}

/// Adds up counter `c` over the rows of a snapshot.
pub fn column_total(snapshot: &Snapshot, c: usize) -> (total: u128)
    requires
        forall|i: int| 0 <= i < snapshot@.len() ==> c < (#[trigger] snapshot@[i]).len(),
    ensures
        total == column_sum(snapshot@, c as int),
{
    let mut total: u128 = 0;
    let mut i: usize = 0;
    while i < snapshot.rows.len()
        invariant
            i <= snapshot.rows.len(),
            forall|j: int| 0 <= j < snapshot@.len() ==> c < (#[trigger] snapshot@[j]).len(),
            total == column_sum(snapshot@.take(i as int), c as int),
            total <= i * 0xFFFF_FFFF_FFFF_FFFF,
        decreases snapshot.rows.len() - i,
    {
        proof {
            assert(snapshot@.take(i + 1).drop_last() =~= snapshot@.take(i as int));
            assert(snapshot@[i as int].len() > c);
        }
        total = total + snapshot.rows[i][c] as u128;
        i += 1;
    }
    assert(snapshot@.take(i as int) =~= snapshot@);
    total
}

/// Derives the traffic rate from two pairs of traffic totals, each pair being
/// received and transmitted bytes, taken `elapsed_ms` milliseconds apart.
pub fn rate_from_totals(before: (u128, u128), after: (u128, u128), elapsed_ms: u64) -> (r: Result<
    NetworkRate,
    SampleError,
>)
    ensures
        r == rate_between(
            (before.0 as int, before.1 as int),
            (after.0 as int, after.1 as int),
            elapsed_ms as int,
        ),
{
    if elapsed_ms == 0 {
        return Err(SampleError::ZeroElapsedDelta);
    }
    if after.0 < before.0 || after.1 < before.1 {
        return Err(SampleError::CounterRegressed);
    }
    Ok(
        NetworkRate {
            download: Ratio { num: after.0 - before.0, den: elapsed_ms as u128 },
            upload: Ratio { num: after.1 - before.1, den: elapsed_ms as u128 },
        },
    )
}

/// Derives the traffic rate of the whole host from two snapshots of the
/// interface counters taken `elapsed_ms` milliseconds apart.
pub fn compute_network_delta(before: &Snapshot, after: &Snapshot, elapsed_ms: u64) -> (r: Result<
    NetworkRate,
    SampleError,
>)
    ensures
        r == network_delta(before@, after@, elapsed_ms as int),
{
    if before.rows.len() != after.rows.len() || !rows_have_arity(before, Family::Network)
        || !rows_have_arity(after, Family::Network) {
        return Err(SampleError::SnapshotShapeMismatch);
    }
    let down_before = column_total(before, 0);
    let up_before = column_total(before, 8);
    let down_after = column_total(after, 0);
    let up_after = column_total(after, 8);
    rate_from_totals((down_before, up_before), (down_after, up_after), elapsed_ms)
}

/// Between two comparable rows in which no counter went down, each counter's
/// increase is at most the increase of the rows' sums, and that increase is at
/// most the row's length times the largest counter.
pub proof fn lemma_increase_bounds(before: Seq<usize>, after: Seq<usize>)
    requires
        before.len() == after.len(),
        !regressed(before, after),
    ensures
        forall|c: int|
            0 <= c < before.len() ==> 0 <= #[trigger] after[c] - before[c] <= sum(after) - sum(
                before,
            ),
        0 <= sum(after) - sum(before) <= before.len() * usize::MAX,
    decreases before.len(),
{
    assert forall|c: int| 0 <= c < before.len() implies before[c] <= #[trigger] after[c] by {
        if after[c] < before[c] {
            assert(regressed(before, after));
        }
    }
    if before.len() > 0 {
        let b = before.drop_last();
        let a = after.drop_last();
        assert forall|c: int| 0 <= c < b.len() implies before[c] == b[c] && after[c] == a[c] by {}
        if regressed(b, a) {
            let c = choose|c: int| 0 <= c < b.len() && c < a.len() && #[trigger] a[c] < b[c];
            assert(after[c] < before[c]);
        }
        lemma_increase_bounds(b, a);
        assert forall|c: int| 0 <= c < before.len() implies 0 <= #[trigger] after[c] - before[c]
            <= sum(after) - sum(before) by {
            if c < b.len() {
                assert(a[c] - b[c] <= sum(a) - sum(b));
            }
        }
        assert(sum(after) - sum(before) <= before.len() * usize::MAX) by (nonlinear_arith)
            requires
                sum(after) - sum(before) <= (before.len() - 1) * usize::MAX + usize::MAX,
        ;
    }
}

/// Where nothing changed between two snapshots that can be compared, every
/// share of every row is zero, the non-idle share included.
pub proof fn lemma_unchanged_counters_show_no_usage(snapshot: Seq<Seq<usize>>)
    requires
        cpu_shape_ok(snapshot, snapshot),
    ensures
        cpu_delta(snapshot, snapshot) == Ok::<CpuUsageView, SampleError>(
            CpuUsageView {
                average: no_usage(),
                processors: Seq::new((snapshot.len() - 1) as nat, |i: int| no_usage()),
            },
        ),
{
    assert(!any_regressed(snapshot, snapshot));
    assert(cpu_delta(snapshot, snapshot).unwrap().processors =~= Seq::new(
        (snapshot.len() - 1) as nat,
        |i: int| no_usage(),
    ));
}

/// Where ticks passed between two comparable rows and no counter went down,
/// the non-idle percentage is a hundred minus the idle percentage: both shares
/// are over the same elapsed ticks, and their numerators add up to them.
pub proof fn lemma_total_complements_idle(before: Seq<usize>, after: Seq<usize>)
    requires
        row_shape_ok(before, after),
        before.len() <= usize::MAX,
        !regressed(before, after),
        sum(after) != sum(before),
    ensures
        ({
            let u = usage_between(before, after);
            &&& u.total.den == u.idle.den
            &&& u.idle.den == sum(after) - sum(before)
            &&& 100 * u.total.num == 100 * u.idle.den - 100 * u.idle.num
        }),
{
    lemma_increase_bounds(before, after);
    assert(0 <= after[3] - before[3] <= sum(after) - sum(before));
    assert(before.len() * usize::MAX <= u128::MAX) by (nonlinear_arith)
        requires
            before.len() <= usize::MAX,
            usize::MAX <= 0xFFFF_FFFF_FFFF_FFFF,
    ;
}

/// The usage that a result holds for row `i` of the snapshots: the average for
/// the first row, a processor for each of the others.
pub open spec fn usage_of_row(usage: CpuUsageView, i: int) -> ProcessorUsage {
    if i == 0 {
        usage.average
    } else {
        usage.processors[i - 1]
    }
}

/// In every result of comparing two processor snapshots, and for every row
/// between whose two readings ticks passed, the non-idle percentage is a
/// hundred minus the idle percentage.
pub proof fn lemma_cpu_total_complements_idle(
    before: Seq<Seq<usize>>,
    after: Seq<Seq<usize>>,
    i: int,
)
    requires
        cpu_delta(before, after).is_ok(),
        0 <= i < before.len(),
        before[i].len() <= usize::MAX,
        sum(after[i]) != sum(before[i]),
    ensures
        ({
            let u = usage_of_row(cpu_delta(before, after).unwrap(), i);
            &&& u.total.den == u.idle.den
            &&& 100 * u.total.num == 100 * u.idle.den - 100 * u.idle.num
        }),
{
    assert(row_shape_ok(before[i], after[i]));
    if regressed(before[i], after[i]) {
        assert(any_regressed(before, after));
    }
    lemma_total_complements_idle(before[i], after[i]);
}

/// The sum of a counter over the rows is at most the number of rows times the
/// largest counter.
pub proof fn lemma_column_sum_bounds(rows: Seq<Seq<usize>>, c: int)
    requires
        0 <= c,
        forall|i: int| 0 <= i < rows.len() ==> c < (#[trigger] rows[i]).len(),
    ensures
        0 <= column_sum(rows, c) <= rows.len() * usize::MAX,
    decreases rows.len(),
{
    if rows.len() > 0 {
        let head = rows.drop_last();
        assert forall|i: int| 0 <= i < head.len() implies c < (#[trigger] head[i]).len() by {
            assert(head[i] == rows[i]);
        }
        lemma_column_sum_bounds(head, c);
        assert(rows.last() == rows[rows.len() - 1]);
        assert(column_sum(rows, c) <= rows.len() * usize::MAX) by (nonlinear_arith)
            requires
                column_sum(rows, c) <= (rows.len() - 1) * usize::MAX + usize::MAX,
        ;
    }
}

/// Where time passed between two comparable snapshots of the interface
/// counters and neither total went down, each rate is the increase of its
/// total over the elapsed time.
pub proof fn lemma_network_rate_formula(
    before: Seq<Seq<usize>>,
    after: Seq<Seq<usize>>,
    elapsed_ms: u64,
)
    requires
        network_shape_ok(before, after),
        after.len() <= usize::MAX,
        elapsed_ms > 0,
        received(before) <= received(after),
        transmitted(before) <= transmitted(after),
    ensures
        network_delta(before, after, elapsed_ms as int) matches Ok(rate) && rate.download.num
            == received(after) - received(before) && rate.upload.num == transmitted(after)
            - transmitted(before) && rate.download.den == elapsed_ms && rate.upload.den
            == elapsed_ms,
{
    assert forall|i: int| 0 <= i < after.len() implies 8 < (#[trigger] after[i]).len() by {}
    assert forall|i: int| 0 <= i < before.len() implies 8 < (#[trigger] before[i]).len() by {}
    lemma_column_sum_bounds(before, 0);
    lemma_column_sum_bounds(before, 8);
    lemma_column_sum_bounds(after, 0);
    lemma_column_sum_bounds(after, 8);
    assert(after.len() * usize::MAX <= u128::MAX) by (nonlinear_arith)
        requires
            after.len() <= usize::MAX,
            usize::MAX <= 0xFFFF_FFFF_FFFF_FFFF,
    ;
}

} // verus!
