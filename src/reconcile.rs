use vstd::prelude::*;

use crate::period::Period;
use crate::share::Share;

verus! {

/// A period with whether a share fulfilled it.
pub type PopulatedPeriod = (Period, bool);

/// A share made at `t` counts for `p` when `p.start < t <= p.deadline`.
pub open spec fn in_window(p: Period, t: i64) -> bool {
    p.start < t && t <= p.deadline
}

/// Scanning for `p` from cursor `c`: consume shares until one lands in the window.
/// Gives whether one did and the cursor after the last share consumed.
pub open spec fn scan(p: Period, shares: Seq<Share>, c: int) -> (bool, int)
    decreases shares.len() - c,
{
    if c < 0 || c >= shares.len() {
        (false, c)
    } else if in_window(p, shares[c].created_at) {
        (true, c + 1)
    } else {
        scan(p, shares, c + 1)
    }
}

/// The cursor into `shares` once the first `n` periods have been reconciled.
pub open spec fn cursor_after(periods: Seq<Period>, shares: Seq<Share>, n: int) -> int
    decreases n,
{
    if n <= 0 {
        0
    } else {
        scan(periods[n - 1], shares, cursor_after(periods, shares, n - 1)).1
    }
}

/// Whether the `k`-th period is fulfilled by the single forward pass.
pub open spec fn fulfilled_at(periods: Seq<Period>, shares: Seq<Share>, k: int) -> bool {
    scan(periods[k], shares, cursor_after(periods, shares, k)).0
}

/// Each period, in order, paired with its outcome under the single forward pass.
pub open spec fn reconciled(periods: Seq<Period>, shares: Seq<Share>) -> Seq<PopulatedPeriod> {
    Seq::new(periods.len(), |k: int| (periods[k], fulfilled_at(periods, shares, k)))
}

/// `r` pairs each period, in order, with its outcome under the single forward pass.
pub open spec fn is_reconciliation(
    periods: Seq<Period>,
    shares: Seq<Share>,
    r: Seq<PopulatedPeriod>,
) -> bool {
    &&& r.len() == periods.len()
    &&& forall|k: int|
        0 <= k < r.len() ==> #[trigger] r[k] == (periods[k], fulfilled_at(periods, shares, k))
}

/// Reconciles ordered periods against ordered shares in one pass. A cursor into
/// `shares` is shared by all periods and never moves back: each period consumes
/// shares until one lands in its window `(start, deadline]`, and a share consumed
/// without landing is gone for later periods too.
pub fn calculate_populated_periods(periods: Vec<Period>, shares: Vec<Share>) -> (r: Vec<
    PopulatedPeriod,
>)
    ensures
        is_reconciliation(periods@, shares@, r@),
        r@ == reconciled(periods@, shares@),
{
    let mut populated: Vec<PopulatedPeriod> = Vec::new();
    let mut cursor: usize = 0;
    let mut i: usize = 0;
    while i < periods.len()
        invariant
            i <= periods@.len(),
            populated@.len() == i,
            cursor as int == cursor_after(periods@, shares@, i as int),
            cursor <= shares@.len(),
            forall|k: int|
                0 <= k < i ==> #[trigger] populated@[k] == (
                    periods@[k],
                    fulfilled_at(periods@, shares@, k),
                ),
        decreases periods@.len() - i,
    {
        let period = periods[i];
        let ghost from = cursor as int;
        let mut fulfilled = false;
        while cursor < shares.len() && !fulfilled
            invariant
                from <= cursor <= shares@.len(),
                from == cursor_after(periods@, shares@, i as int),
                fulfilled ==> scan(period, shares@, from) == (true, cursor as int),
                !fulfilled ==> scan(period, shares@, from) == scan(period, shares@, cursor as int),
            decreases shares@.len() - cursor,
        {
            let share = shares[cursor];
            cursor = cursor + 1;
            if period.start < share.created_at && share.created_at <= period.deadline {
                fulfilled = true;
            }
        }
        assert(scan(period, shares@, from) == (fulfilled, cursor as int));
        populated.push((period, fulfilled));
        i = i + 1;
    }
    assert(populated@ =~= reconciled(periods@, shares@));
    populated
}

/// The scan for one period stays within `[c, shares.len()]`.
pub proof fn lemma_scan_bounds(p: Period, shares: Seq<Share>, c: int)
    requires
        0 <= c <= shares.len(),
    ensures
        c <= scan(p, shares, c).1 <= shares.len(),
        scan(p, shares, c).0 ==> c < scan(p, shares, c).1,
    decreases shares.len() - c,
{
    if c < shares.len() && !in_window(p, shares[c].created_at) {
        lemma_scan_bounds(p, shares, c + 1);
    }
}

/// The cursor never moves back and never passes the end of the shares.
pub proof fn lemma_cursor_monotone(periods: Seq<Period>, shares: Seq<Share>, m: int, n: int)
    requires
        0 <= m <= n <= periods.len(),
    ensures
        0 <= cursor_after(periods, shares, m) <= cursor_after(periods, shares, n) <= shares.len(),
    decreases n,
{
    if n > 0 {
        lemma_cursor_monotone(periods, shares, 0, n - 1);
        lemma_scan_bounds(periods[n - 1], shares, cursor_after(periods, shares, n - 1));
        if m < n {
            lemma_cursor_monotone(periods, shares, m, n - 1);
        }
    }
}

/// The scan finds a share exactly when some share at or after the cursor lands in
/// the window.
pub proof fn lemma_scan_finds(p: Period, shares: Seq<Share>, c: int)
    requires
        0 <= c <= shares.len(),
    ensures
        scan(p, shares, c).0 <==> exists|j: int|
            c <= j < shares.len() && #[trigger] in_window(p, shares[j].created_at),
    decreases shares.len() - c,
{
    if c < shares.len() && !in_window(p, shares[c].created_at) {
        lemma_scan_finds(p, shares, c + 1);
        if exists|j: int| c <= j < shares.len() && #[trigger] in_window(p, shares[j].created_at) {
            let j = choose|j: int| c <= j < shares.len() && #[trigger] in_window(p, shares[j].created_at);
            assert(j != c);
        }
    }
}

/// A period is fulfilled whenever a share that no earlier period consumed lands in
/// its window `(start, deadline]`.
pub proof fn lemma_unconsumed_share_fulfills(
    periods: Seq<Period>,
    shares: Seq<Share>,
    k: int,
    j: int,
)
    requires
        0 <= k < periods.len(),
        cursor_after(periods, shares, k) <= j < shares.len(),
        in_window(periods[k], shares[j].created_at),
    ensures
        fulfilled_at(periods, shares, k),
{
    lemma_cursor_monotone(periods, shares, k, k);
    lemma_scan_finds(periods[k], shares, cursor_after(periods, shares, k));
}

/// Each share is consumed by at most one period: the periods consume disjoint,
/// ordered ranges `[cursor_after(k), cursor_after(k + 1))` of the shares.
pub proof fn lemma_each_share_consumed_once(
    periods: Seq<Period>,
    shares: Seq<Share>,
    k1: int,
    k2: int,
)
    requires
        0 <= k1 < k2 < periods.len(),
    ensures
        cursor_after(periods, shares, k1) <= cursor_after(periods, shares, k1 + 1)
            <= cursor_after(periods, shares, k2) <= cursor_after(periods, shares, k2 + 1),
{
    lemma_cursor_monotone(periods, shares, k1, k1 + 1);
    lemma_cursor_monotone(periods, shares, k1 + 1, k2);
    lemma_cursor_monotone(periods, shares, k2, k2 + 1);
}

/// All periods together consume no more shares than were supplied.
pub proof fn lemma_consumed_within_supply(periods: Seq<Period>, shares: Seq<Share>)
    ensures
        cursor_after(periods, shares, periods.len() as int) <= shares.len(),
{
    lemma_cursor_monotone(periods, shares, 0, periods.len() as int);
}

/// How many entries of a reconciled sequence are fulfilled.
pub open spec fn fulfilled_count(r: Seq<PopulatedPeriod>) -> nat
    decreases r.len(),
{
    if r.len() == 0 {
        0
    } else {
        fulfilled_count(r.drop_last()) + if r.last().1 {
            1nat
        } else {
            0nat
        }
    }
}

/// The fulfilled periods among the first `n` are no more than the shares consumed by them.
proof fn lemma_fulfilled_prefix(periods: Seq<Period>, shares: Seq<Share>, n: int)
    requires
        0 <= n <= periods.len(),
    ensures
        fulfilled_count(reconciled(periods, shares).take(n)) <= cursor_after(periods, shares, n),
    decreases n,
{
    let r = reconciled(periods, shares);
    if n > 0 {
        lemma_fulfilled_prefix(periods, shares, n - 1);
        assert(r.take(n).drop_last() =~= r.take(n - 1));
        lemma_cursor_monotone(periods, shares, 0, n - 1);
        lemma_scan_bounds(periods[n - 1], shares, cursor_after(periods, shares, n - 1));
    } else {
        assert(r.take(0).len() == 0);
    }
}

/// No more periods are fulfilled than shares were supplied: each fulfilled period
/// consumes a share of its own.
pub proof fn lemma_fulfilled_within_supply(periods: Seq<Period>, shares: Seq<Share>)
    ensures
        fulfilled_count(reconciled(periods, shares)) <= shares.len(),
{
    let r = reconciled(periods, shares);
    lemma_fulfilled_prefix(periods, shares, periods.len() as int);
    assert(r.take(periods.len() as int) =~= r);
    lemma_consumed_within_supply(periods, shares);
}

/// Reconciling the same periods and shares twice gives the same result.
pub proof fn lemma_reconciliation_deterministic(
    periods: Seq<Period>,
    shares: Seq<Share>,
    r1: Seq<PopulatedPeriod>,
    r2: Seq<PopulatedPeriod>,
)
    requires
        is_reconciliation(periods, shares, r1),
        is_reconciliation(periods, shares, r2),
    ensures
        r1 == r2,
{
    assert(r1 =~= r2);
}

} // verus!
