use vstd::prelude::*;

use crate::price_row::{closes_between, closes_of, PriceRow};

verus! {

/// The daily price history of one ticker, oldest day first.
#[derive(Debug, Clone)]
pub struct TickerDataFrame<D, C> {
    pub ticker_name: String,
    pub data: Vec<PriceRow<D, C>>,
}

/// How many windows of `lookback` consecutive days a history of `n` days holds.
pub open spec fn window_count(n: nat, lookback: nat) -> nat {
    if n >= lookback {
        (n - lookback + 1) as nat
    } else {
        0
    }
}

/// The closes of the `k`-th window of `lookback` consecutive days of `rows`.
pub open spec fn lookback_closes<D, C>(rows: Seq<PriceRow<D, C>>, lookback: nat, k: int) -> Seq<C> {
    closes_of(rows.subrange(k, k + lookback))
}

impl<D, C> TickerDataFrame<D, C> {
    /// The name of the file that the daily history of this ticker is written to.
    pub fn daily_file_name(&self) -> (name: String)
        ensures
            name@ == self.ticker_name@ + "_daily.tsv"@,
    {
        let mut name = self.ticker_name.clone();
        name.append("_daily.tsv");
        name
    }
}

/// A window of consecutive days, dated by its most recent day `t0`.
#[derive(Debug, Clone)]
pub struct WindowRow<D, C> {
    pub date: D,
    pub closes: Vec<C>,
}

/// `windows` are the windows of `lookback` consecutive days of `rows`, in order, each
/// dated by its last day `t0`.
pub open spec fn t0_dated_windows<D, C>(
    windows: Seq<WindowRow<D, C>>,
    rows: Seq<PriceRow<D, C>>,
    lookback: nat,
) -> bool {
    &&& windows.len() == window_count(rows.len(), lookback)
    &&& forall|k: int|
        0 <= k < windows.len() ==> {
            &&& (#[trigger] windows[k]).date == rows[k + lookback - 1].date
            &&& windows[k].closes@ == lookback_closes(rows, lookback, k)
        }
}

/// Cuts the history of `df` into windows of `lookback` consecutive days, each dated by
/// its most recent day `t0`.
pub fn make_ts_windows<D: Copy, C: Copy>(df: TickerDataFrame<D, C>, lookback: usize) -> (windows: Vec<WindowRow<D, C>>)
    requires
        lookback > 0,
    ensures
        t0_dated_windows(windows@, df.data@, lookback as nat),
{
    let n = df.data.len();
    let count: usize = if n >= lookback { n - lookback + 1 } else { 0 };
    let mut windows: Vec<WindowRow<D, C>> = Vec::new();
    let mut k: usize = 0;
    while k < count
        invariant
            n == df.data.len(),
            lookback > 0,
            count == window_count(n as nat, lookback as nat),
            k <= count,
            windows.len() == k,
            forall|j: int|
                0 <= j < k ==> {
                    &&& (#[trigger] windows@[j]).date == df.data@[j + lookback - 1].date
                    &&& windows@[j].closes@ == lookback_closes(df.data@, lookback as nat, j)
                },
        decreases count - k,
    {
        let closes = closes_between(&df.data, k, lookback);
        windows.push(WindowRow { date: df.data[k + lookback - 1].date, closes });
        k = k + 1;
    }
    windows
}

/// Law: a history of `n >= lookback` days has exactly `n - lookback + 1` windows, one
/// for each start day: the first holds the oldest `lookback` closes and the last is dated
/// by the history's last day and holds its newest `lookback` closes. A shorter history has
/// no window.
pub proof fn lemma_windows_cover_history<D, C>(
    windows: Seq<WindowRow<D, C>>,
    rows: Seq<PriceRow<D, C>>,
    lookback: nat,
)
    requires
        lookback > 0,
        t0_dated_windows(windows, rows, lookback),
    ensures
        rows.len() < lookback ==> windows.len() == 0,
        rows.len() >= lookback ==> {
            &&& windows.len() + lookback == rows.len() + 1
            &&& windows[0].closes@ == closes_of(rows.take(lookback as int))
            &&& windows[windows.len() - 1].date == rows[rows.len() - 1].date
            &&& windows[windows.len() - 1].closes@ == closes_of(rows.skip(rows.len() - lookback))
        },
        forall|k: int|
            0 <= k < windows.len() ==> k + lookback <= rows.len() && (#[trigger] windows[k]).closes@.len()
                == lookback,
{
    if rows.len() >= lookback {
        let last = windows.len() - 1;
        assert(windows[last].date == rows[last + lookback - 1].date);
        assert(rows.subrange(0, lookback as int) =~= rows.take(lookback as int));
        assert(rows.subrange(last, last + lookback) =~= rows.skip(rows.len() - lookback));
    }
}

/// Windows of a price history, each dated by its most recent day `t0`.
#[derive(Debug)]
pub struct PreppedDataFrame<D, C> {
    pub data: Vec<WindowRow<D, C>>,
}

impl<D: Copy, C: Copy> PreppedDataFrame<D, C> {
    /// The windows of `lookback` consecutive days of `ticker_price_history_df`.
    pub fn new(ticker_price_history_df: TickerDataFrame<D, C>, lookback: usize) -> (frame: Self)
        requires
            lookback > 0,
        ensures
            t0_dated_windows(frame.data@, ticker_price_history_df.data@, lookback as nat),
    {
        let data = make_ts_windows(ticker_price_history_df, lookback);
        PreppedDataFrame { data }
    }
}

} // verus!
