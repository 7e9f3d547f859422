//! The hourly rate chart: activity counts over the trailing week, one
//! bucket per hour, with every bucket present — hours with no activity
//! appear with a count of zero rather than being omitted.

use vstd::prelude::*;

verus! {

/// Hours in the chart's trailing window (7 days).
pub const CHART_HOURS: usize = 168;

/// One chart bucket: an hour (as hours since the epoch) and how many
/// records fell into it.
#[derive(Clone, Copy, Debug, PartialEq, Eq, Structural)]
pub struct Data {
    pub hour: i64,
    pub count: i64,
}

/// The count the rows report for `hour`: the first row carrying the hour,
/// or zero when no row does.
pub open spec fn count_for(rows: Seq<Data>, hour: i64) -> i64
    decreases rows.len(),
{
    if rows.len() == 0 {
        0
    } else if rows[0].hour == hour {
        rows[0].count
    } else {
        count_for(rows.drop_first(), hour)
    }
}

/// Looks up the count the rows report for `hour`.
fn lookup_count(rows: &Vec<Data>, hour: i64) -> (r: i64)
    ensures
        r == count_for(rows@, hour),
{
    let mut i: usize = 0;
    proof {
        assert(rows@.skip(0) =~= rows@);
    }
    while i < rows.len()
        invariant
            i <= rows@.len(),
            count_for(rows@, hour) == count_for(rows@.skip(i as int), hour),
        decreases rows@.len() - i,
    {
        if rows[i].hour == hour {
            proof {
                assert(rows@.skip(i as int)[0] == rows@[i as int]);
            }
            return rows[i].count;
        }
        proof {
            assert(rows@.skip(i as int).drop_first() =~= rows@.skip(i as int + 1));
        }
        i += 1;
    }
    proof {
        assert(rows@.skip(rows@.len() as int).len() == 0);
    }
    0
}

/// Builds the zero-filled rate chart from the store's per-hour counts.
/// `rows` need only mention hours with activity; the result holds all 168
/// trailing hourly buckets ending at `now_hour`, in order, each with the
/// reported count or zero.
pub fn build_rate_chart(rows: &Vec<Data>, now_hour: i64) -> (r: Vec<Data>)
    requires
        i64::MIN + 168 <= now_hour,
    ensures
        r@.len() == CHART_HOURS,
        forall|i: int| 0 <= i < CHART_HOURS ==> r@[i].hour == now_hour - (CHART_HOURS - 1) + i,
        forall|i: int| 0 <= i < CHART_HOURS ==> r@[i].count == count_for(rows@, r@[i].hour),
{
    let start = now_hour - (CHART_HOURS as i64 - 1);
    let mut r: Vec<Data> = Vec::new();
    let mut i: usize = 0;
    while i < CHART_HOURS
        invariant
            i <= CHART_HOURS,
            i64::MIN + 168 <= now_hour,
            start == now_hour - (CHART_HOURS - 1),
            r@.len() == i,
            forall|j: int| 0 <= j < i ==> r@[j].hour == start + j,
            forall|j: int| 0 <= j < i ==> r@[j].count == count_for(rows@, r@[j].hour),
        decreases CHART_HOURS - i,
    {
        let hour = start + i as i64;
        let count = lookup_count(rows, hour);
        r.push(Data { hour, count });
        i += 1;
    }
    r
}

} // verus!
