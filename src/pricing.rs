use vstd::prelude::*;
use crate::events::TransferRecord;
use crate::amount::{normalize_amount, scale_of, scaled_units, ScaledAmount};
use crate::registry::{
    decimals_for, is_btc_symbol, is_btc_token, is_stable_symbol, is_usd_stablecoin, symbol_for,
    token_decimals, Token,
};
use crate::text::{parse_timestamp, timestamp_spec};

verus! {

/// Distance between two timestamps.
pub open spec fn gap(a: u64, b: u64) -> nat {
    if a >= b {
        (a - b) as nat
    } else {
        (b - a) as nat
    }
}

/// `j` is where a forward sweep that starts at `start` stops for target `t`:
/// every step up to `j` brought a strictly closer sample, and the step after
/// `j` (if there is one) would not.
pub open spec fn sweep_stop(ts: Seq<u64>, start: int, t: u64, j: int) -> bool {
    &&& 0 <= start <= j < ts.len()
    &&& (j == ts.len() - 1 || gap(ts[j], t) <= gap(ts[j + 1], t))
    &&& forall|k: int| start <= k < j ==> #[trigger] gap(ts[k + 1], t) < gap(ts[k], t)
}

/// Timestamps in strictly ascending order.
pub open spec fn strictly_ascending(ts: Seq<u64>) -> bool {
    forall|a: int, b: int| 0 <= a < b < ts.len() ==> #[trigger] ts[a] < #[trigger] ts[b]
}

/// `j` is the sample closest to `t`, the earliest of those equally close.
pub open spec fn is_nearest(ts: Seq<u64>, t: u64, j: int) -> bool {
    &&& 0 <= j < ts.len()
    &&& forall|k: int| 0 <= k < ts.len() ==> gap(ts[j], t) <= gap(#[trigger] ts[k], t)
    &&& forall|k: int| 0 <= k < j ==> gap(ts[j], t) < gap(#[trigger] ts[k], t)
}

/// Distance from `a` to `b`.
fn abs_gap(a: u64, b: u64) -> (r: u64)
    ensures
        r == gap(a, b),
{
    if a >= b {
        a - b
    } else {
        b - a
    }
}

/// Moves a cursor into a time-ordered series forward from `start` while the
/// next sample is strictly closer to `target`; ties keep the earlier sample.
pub fn advance_cursor(series: &Vec<u64>, start: usize, target: u64) -> (r: usize)
    requires
        start < series.len(),
    ensures
        sweep_stop(series@, start as int, target, r as int),
{
    let mut i: usize = start;
    while i + 1 < series.len() && abs_gap(series[i + 1], target) < abs_gap(series[i], target)
        invariant
            start <= i < series.len(),
            forall|k: int| start <= k < i ==> #[trigger] gap(series@[k + 1], target) < gap(series@[k], target),
        decreases series.len() - i,
    {
        i = i + 1;
    }
    i
}

/// How the USD value of one transfer is to be found.
#[derive(Clone, Copy, Debug, PartialEq, Eq)]
pub enum Pricing {
    /// A stablecoin: valued at a rate of one.
    Stable,
    /// A bitcoin-denominated token: no series is wired up, the value stays zero.
    Unpriced,
    /// Valued at the estimate of the price sample at this index.
    Sample(usize),
}

/// Failures that end a run.
#[derive(Clone, Copy, Debug, PartialEq, Eq)]
pub enum PipelineError {
    /// The price feed returned no samples.
    NoPriceData,
}

/// Where the shared cursor stands before the transfer at `i`: at the sample
/// chosen for the last priced transfer before it, or at the start.
pub open spec fn cursor_before(plan: Seq<Pricing>, i: int) -> int
    decreases i,
{
    if i <= 0 {
        0
    } else {
        match plan[i - 1] {
            Pricing::Sample(j) => j as int,
            _ => cursor_before(plan, i - 1),
        }
    }
}

/// What `plan` must say of the transfer at `i`, given the registry and the
/// timestamps of the price series.
pub open spec fn plan_entry_ok(
    reg: Seq<Token>,
    recs: Seq<TransferRecord>,
    ts: Seq<u64>,
    plan: Seq<Pricing>,
    i: int,
) -> bool {
    let sym = symbol_for(reg, recs[i].token_addr@);
    if is_stable_symbol(sym) {
        plan[i] == Pricing::Stable
    } else if is_btc_symbol(sym) {
        plan[i] == Pricing::Unpriced
    } else {
        plan[i] matches Pricing::Sample(j) && sweep_stop(
            ts,
            cursor_before(plan, i),
            timestamp_spec(recs[i].timestamp@),
            j as int,
        )
    }
}

/// A plan for every transfer of `recs`, in order.
pub open spec fn plan_ok(reg: Seq<Token>, recs: Seq<TransferRecord>, ts: Seq<u64>, plan: Seq<Pricing>) -> bool {
    &&& plan.len() == recs.len()
    &&& forall|i: int| 0 <= i < recs.len() ==> #[trigger] plan_entry_ok(reg, recs, ts, plan, i)
}

/// Chooses, for each transfer in order, how its USD value is found: a
/// stablecoin at a rate of one, a bitcoin token not at all, and any other at
/// the sample a single forward sweep over `series` stops at for its timestamp.
/// The sweep's cursor is shared by the whole batch. An empty series fails.
pub fn plan_pricing(
    token_hash: &Vec<Token>,
    records: &Vec<TransferRecord>,
    series: &Vec<u64>,
) -> (r: Result<Vec<Pricing>, PipelineError>)
    ensures
        series.len() == 0 <==> r is Err,
        r matches Err(e) ==> e == PipelineError::NoPriceData,
        r matches Ok(plan) ==> plan_ok(token_hash@, records@, series@, plan@),
{
    if series.len() == 0 {
        return Err(PipelineError::NoPriceData);
    }
    let mut plan: Vec<Pricing> = Vec::new();
    let mut cursor: usize = 0;
    let mut i: usize = 0;
    while i < records.len()
        invariant
            i <= records.len(),
            plan.len() == i,
            series.len() > 0,
            cursor < series.len(),
            cursor == cursor_before(plan@, i as int),
            forall|k: int| 0 <= k < i ==> #[trigger] plan_entry_ok(token_hash@, records@, series@, plan@, k),
        decreases records.len() - i,
    {
        let rec = &records[i];
        let ghost old_plan = plan@;
        let p = if is_usd_stablecoin(token_hash, &rec.token_addr) {
            Pricing::Stable
        } else if is_btc_token(token_hash, &rec.token_addr) {
            Pricing::Unpriced
        } else {
            let t = parse_timestamp(rec.timestamp.as_str());
            cursor = advance_cursor(series, cursor, t);
            Pricing::Sample(cursor)
        };
        plan.push(p);
        proof {
            assert forall|k: int| 0 <= k < i implies #[trigger] plan_entry_ok(token_hash@, records@, series@, plan@, k) by {
                assert(plan@[k] == old_plan[k]);
                assert(plan_entry_ok(token_hash@, records@, series@, old_plan, k));
                lemma_cursor_before_prefix(old_plan, plan@, k);
            }
            lemma_cursor_before_prefix(old_plan, plan@, i as int);
            assert(plan_entry_ok(token_hash@, records@, series@, plan@, i as int));
        }
        i = i + 1;
    }
    Ok(plan)
}

proof fn lemma_cursor_before_prefix(short: Seq<Pricing>, long: Seq<Pricing>, i: int)
    requires
        0 <= i <= short.len() <= long.len(),
        forall|k: int| 0 <= k < short.len() ==> short[k] == long[k],
    ensures
        cursor_before(short, i) == cursor_before(long, i),
    decreases i,
{
    if i > 0 {
        lemma_cursor_before_prefix(short, long, i - 1);
    }
}

proof fn lemma_step_down(ts: Seq<u64>, t: u64, j: int)
    requires
        strictly_ascending(ts),
        0 < j < ts.len(),
        gap(ts[j], t) < gap(ts[j - 1], t),
    ensures
        ts[j - 1] < t,
        forall|k: int| 0 <= k < j ==> gap(ts[j], t) < gap(#[trigger] ts[k], t),
{
    assert(ts[j - 1] < ts[j]);
    assert forall|k: int| 0 <= k < j implies gap(ts[j], t) < gap(#[trigger] ts[k], t) by {
        if k < j - 1 {
            assert(ts[k] < ts[j - 1]);
        }
    }
}

proof fn lemma_step_up(ts: Seq<u64>, t: u64, j: int)
    requires
        strictly_ascending(ts),
        0 <= j,
        j + 1 < ts.len(),
        gap(ts[j], t) <= gap(ts[j + 1], t),
    ensures
        forall|k: int| j < k < ts.len() ==> gap(ts[j], t) <= gap(#[trigger] ts[k], t),
{
    assert(ts[j] < ts[j + 1]);
    assert forall|k: int| j < k < ts.len() implies gap(ts[j], t) <= gap(#[trigger] ts[k], t) by {
        if k > j + 1 {
            assert(ts[j + 1] < ts[k]);
        }
    }
}

proof fn lemma_stop_is_nearest(ts: Seq<u64>, t: u64, j: int)
    requires
        strictly_ascending(ts),
        0 <= j < ts.len(),
        j == ts.len() - 1 || gap(ts[j], t) <= gap(ts[j + 1], t),
        forall|k: int| 0 <= k < j ==> gap(ts[j], t) < gap(#[trigger] ts[k], t),
    ensures
        is_nearest(ts, t, j),
{
    if j + 1 < ts.len() {
        lemma_step_up(ts, t, j);
    }
}

/// On a strictly ascending series, a sweep from the first sample stops at the
/// sample nearest to the target, the earlier one on a tie; past the last
/// sample it stops at the last.
pub proof fn lemma_sweep_finds_nearest(ts: Seq<u64>, t: u64, j: int)
    requires
        strictly_ascending(ts),
        sweep_stop(ts, 0, t, j),
    ensures
        is_nearest(ts, t, j),
        ts.len() > 0 && t >= ts[ts.len() - 1] ==> j == ts.len() - 1,
{
    if j > 0 {
        assert(gap(ts[(j - 1) + 1], t) < gap(ts[j - 1], t));
        lemma_step_down(ts, t, j);
    }
    lemma_stop_is_nearest(ts, t, j);
    if ts.len() > 0 && t >= ts[ts.len() - 1] && j < ts.len() - 1 {
        assert(ts[j] < ts[j + 1]);
        assert(ts[j + 1] <= ts[ts.len() - 1]);
    }
}

/// On a strictly ascending series, once the sweep has stopped for one target,
/// resuming it from there for a later or equal target stops at the sample
/// nearest to that target: the shared cursor loses nothing on a time-ordered
/// batch.
pub proof fn lemma_resumed_sweep_finds_nearest(ts: Seq<u64>, t1: u64, s: int, t2: u64, j: int)
    requires
        strictly_ascending(ts),
        sweep_stop(ts, 0, t1, s),
        t1 <= t2,
        sweep_stop(ts, s, t2, j),
    ensures
        is_nearest(ts, t2, j),
{
    if j > s {
        assert(gap(ts[(j - 1) + 1], t2) < gap(ts[j - 1], t2));
        lemma_step_down(ts, t2, j);
    } else if s > 0 {
        assert(gap(ts[(s - 1) + 1], t1) < gap(ts[s - 1], t1));
        lemma_step_down(ts, t1, s);
        assert(gap(ts[s], t2) < gap(ts[s - 1], t2));
        lemma_step_down(ts, t2, s);
    }
    lemma_stop_is_nearest(ts, t2, j);
}

proof fn lemma_nearest_is_stop(ts: Seq<u64>, t: u64, j: int)
    requires
        strictly_ascending(ts),
        is_nearest(ts, t, j),
    ensures
        sweep_stop(ts, 0, t, j),
{
    assert forall|k: int| 0 <= k < j implies ts[k] < t by {
        assert(ts[k] < ts[j]);
        assert(gap(ts[j], t) < gap(ts[k], t));
    }
    assert forall|k: int| 0 <= k < j implies #[trigger] gap(ts[k + 1], t) < gap(ts[k], t) by {
        assert(ts[k] < ts[k + 1]);
        if k + 1 < j {
            assert(ts[k + 1] < t);
        } else {
            assert(gap(ts[j], t) < gap(ts[k], t));
        }
    }
    if j + 1 < ts.len() {
        assert(gap(ts[j], t) <= gap(ts[j + 1], t));
    }
}

proof fn lemma_cursor_source(plan: Seq<Pricing>, i: int)
    requires
        0 <= i <= plan.len(),
    ensures
        cursor_before(plan, i) == 0 || exists|k: int|
            0 <= k < i && #[trigger] plan[k] == Pricing::Sample(cursor_before(plan, i) as usize)
                && cursor_before(plan, i) >= 0,
    decreases i,
{
    if i > 0 {
        lemma_cursor_source(plan, i - 1);
        match plan[i - 1] {
            Pricing::Sample(j) => {
                assert(plan[i - 1] == Pricing::Sample(cursor_before(plan, i) as usize));
            },
            _ => {
                if cursor_before(plan, i) != 0 {
                    let k = choose|k: int|
                        0 <= k < i - 1 && #[trigger] plan[k] == Pricing::Sample(
                            cursor_before(plan, i - 1) as usize,
                        ) && cursor_before(plan, i - 1) >= 0;
                    assert(plan[k] == Pricing::Sample(cursor_before(plan, i) as usize));
                }
            },
        }
    }
}

/// Transfers whose timestamps never decrease.
pub open spec fn time_ordered(recs: Seq<TransferRecord>) -> bool {
    forall|a: int, b: int|
        0 <= a < b < recs.len() ==> timestamp_spec(#[trigger] recs[a].timestamp@) <= timestamp_spec(
            #[trigger] recs[b].timestamp@,
        )
}

proof fn lemma_plan_nearest_upto(
    reg: Seq<Token>,
    recs: Seq<TransferRecord>,
    ts: Seq<u64>,
    plan: Seq<Pricing>,
    n: int,
)
    requires
        strictly_ascending(ts),
        time_ordered(recs),
        plan_ok(reg, recs, ts, plan),
        0 <= n <= recs.len(),
    ensures
        forall|i: int|
            0 <= i < n ==> (#[trigger] plan[i] matches Pricing::Sample(j) ==> sweep_stop(
                ts,
                0,
                timestamp_spec(recs[i].timestamp@),
                j as int,
            )),
    decreases n,
{
    if n > 0 {
        let i = n - 1;
        lemma_plan_nearest_upto(reg, recs, ts, plan, i);
        assert(plan_entry_ok(reg, recs, ts, plan, i));
        if let Pricing::Sample(j) = plan[i] {
            let t = timestamp_spec(recs[i].timestamp@);
            let c = cursor_before(plan, i);
            lemma_cursor_source(plan, i);
            if c == 0 {
                lemma_sweep_finds_nearest(ts, t, j as int);
            } else {
                let k = choose|k: int|
                    0 <= k < i && #[trigger] plan[k] == Pricing::Sample(c as usize) && c >= 0;
                assert(plan[k] matches Pricing::Sample(_));
                assert(timestamp_spec(recs[k].timestamp@) <= t);
                lemma_resumed_sweep_finds_nearest(ts, timestamp_spec(recs[k].timestamp@), c, t, j as int);
            }
            if c != 0 {
                lemma_nearest_is_stop(ts, t, j as int);
            }
        }
    }
}

/// On a strictly ascending series and a time-ordered batch, every transfer
/// that a plan values by a sample is valued by the sample nearest to its
/// timestamp, the earlier one on a tie.
pub proof fn lemma_plan_picks_nearest(
    reg: Seq<Token>,
    recs: Seq<TransferRecord>,
    ts: Seq<u64>,
    plan: Seq<Pricing>,
)
    requires
        strictly_ascending(ts),
        time_ordered(recs),
        plan_ok(reg, recs, ts, plan),
    ensures
        forall|i: int|
            0 <= i < recs.len() ==> (#[trigger] plan[i] matches Pricing::Sample(j) ==> is_nearest(
                ts,
                timestamp_spec(recs[i].timestamp@),
                j as int,
            )),
{
    lemma_plan_nearest_upto(reg, recs, ts, plan, recs.len() as int);
    assert forall|i: int| 0 <= i < recs.len() implies (#[trigger] plan[i] matches Pricing::Sample(j)
        ==> is_nearest(ts, timestamp_spec(recs[i].timestamp@), j as int)) by {
        if let Pricing::Sample(j) = plan[i] {
            lemma_sweep_finds_nearest(ts, timestamp_spec(recs[i].timestamp@), j as int);
        }
    }
}

/// A stablecoin transfer is valued at a rate of one whatever the price series
/// holds: every plan, over any series, marks it so.
pub proof fn lemma_stable_ignores_series(
    reg: Seq<Token>,
    recs: Seq<TransferRecord>,
    ts: Seq<u64>,
    plan: Seq<Pricing>,
    i: int,
)
    requires
        plan_ok(reg, recs, ts, plan),
        0 <= i < recs.len(),
        is_stable_symbol(symbol_for(reg, recs[i].token_addr@)),
    ensures
        plan[i] == Pricing::Stable,
{
    assert(plan_entry_ok(reg, recs, ts, plan, i));
}

/// The amount of a record at the precision registered for its token.
pub fn record_amount(token_hash: &Vec<Token>, rec: &TransferRecord) -> (r: ScaledAmount)
    ensures
        r.units == scaled_units(rec.token_count, decimals_for(token_hash@, rec.token_addr@)),
        r.scale == scale_of(decimals_for(token_hash@, rec.token_addr@)),
{
    normalize_amount(rec.token_count, token_decimals(token_hash, &rec.token_addr))
}

} // verus!
