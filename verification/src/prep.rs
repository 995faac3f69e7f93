use vstd::prelude::*;

use crate::price_row::{closes_between, closes_of, PriceRow};
use crate::split::TrainTestSplit;
use crate::text::{decimal, push_decimal};
use crate::ticker_data_frame::{lookback_closes, window_count, TickerDataFrame};

verus! {

/// A window of consecutive days, dated by its last day `t0`.
#[derive(Debug, Clone)]
pub struct WindowRow<D, C> {
    pub date: D,
    pub closes: Vec<C>,
}

/// `windows` are the windows of `lookback` consecutive days of `rows`, in order, each
/// dated by its last day.
pub open spec fn t0_dated_windows<D, C>(
    windows: Seq<WindowRow<D, C>>,
    rows: Seq<PriceRow<D, C>>,
    lookback: nat,
) -> bool {
    &&& windows.len() == window_count(rows.len(), lookback)
    &&& forall|k: int|
        0 <= k < windows.len() ==> {
            &&& (#[trigger] windows[k]).date == rows[k + lookback - 1].date
            &&& windows[k].closes@ == lookback_closes(rows, lookback, k)
        }
}

/// Cuts the history of `df` into windows of `lookback` consecutive days, each dated by
/// its most recent day.
pub fn make_ts_windows<D: Copy, C: Copy>(df: TickerDataFrame<D, C>, lookback: usize) -> (windows: Vec<WindowRow<D, C>>)
    requires
        lookback > 0,
    ensures
        t0_dated_windows(windows@, df.data@, lookback as nat),
{
    let n = df.data.len();
    let count: usize = if n >= lookback { n - lookback + 1 } else { 0 };
    let mut windows: Vec<WindowRow<D, C>> = Vec::new();
    let mut k: usize = 0;
    while k < count
        invariant
            n == df.data.len(),
            lookback > 0,
            count == window_count(n as nat, lookback as nat),
            k <= count,
            windows.len() == k,
            forall|j: int|
                0 <= j < k ==> {
                    &&& (#[trigger] windows@[j]).date == df.data@[j + lookback - 1].date
                    &&& windows@[j].closes@ == lookback_closes(df.data@, lookback as nat, j)
                },
        decreases count - k,
    {
        let closes = closes_between(&df.data, k, lookback);
        windows.push(WindowRow { date: df.data[k + lookback - 1].date, closes });
        k = k + 1;
    }
    windows
}

/// Law: in the `k`-th window of `lookback` days, the close `j` days before the window's
/// last day `t0` (the column `tm{j}`, `t0` for `j == 0`) stands at position
/// `lookback - 1 - j`, and the window holds exactly `lookback` closes.
pub proof fn lemma_lookback_column<D, C>(rows: Seq<PriceRow<D, C>>, lookback: nat, k: int, j: int)
    requires
        lookback > 0,
        0 <= k < window_count(rows.len(), lookback),
        0 <= j < lookback,
    ensures
        lookback_closes(rows, lookback, k).len() == lookback,
        lookback_closes(rows, lookback, k)[lookback - 1 - j] == rows[k + lookback - 1 - j].close,
{
}

/// Law: the windows of a history of at least `lookback` days are not empty, and each
/// holds exactly `lookback` closes, so they can be split into features and target.
pub proof fn lemma_windows_uniform<D, C>(
    windows: Seq<WindowRow<D, C>>,
    rows: Seq<PriceRow<D, C>>,
    lookback: nat,
)
    requires
        lookback > 0,
        rows.len() >= lookback,
        t0_dated_windows(windows, rows, lookback),
    ensures
        uniform_windows(window_closes(windows)),
        forall|k: int| 0 <= k < windows.len() ==> (#[trigger] window_closes(windows)[k]).len() == lookback,
{
    let w = window_closes(windows);
    assert forall|k: int| 0 <= k < windows.len() implies (#[trigger] w[k]).len() == lookback by {
        assert(w[k] == windows[k].closes@);
    }
    assert(w[0].len() == lookback);
}

/// Law: a history of `n >= lookback` days has exactly `n - lookback + 1` windows, one
/// for each start day: the first holds the oldest `lookback` closes and the last is dated
/// by the history's last day and holds its newest `lookback` closes. A shorter history has
/// no window.
pub proof fn lemma_windows_cover_history<D, C>(
    windows: Seq<WindowRow<D, C>>,
    rows: Seq<PriceRow<D, C>>,
    lookback: nat,
)
    requires
        lookback > 0,
        t0_dated_windows(windows, rows, lookback),
    ensures
        rows.len() < lookback ==> windows.len() == 0,
        rows.len() >= lookback ==> {
            &&& windows.len() + lookback == rows.len() + 1
            &&& windows[0].closes@ == closes_of(rows.take(lookback as int))
            &&& windows[windows.len() - 1].date == rows[rows.len() - 1].date
            &&& windows[windows.len() - 1].closes@ == closes_of(rows.skip(rows.len() - lookback))
        },
        forall|k: int|
            0 <= k < windows.len() ==> k + lookback <= rows.len() && (#[trigger] windows[k]).closes@.len()
                == lookback,
{
    if rows.len() >= lookback {
        let last = windows.len() - 1;
        assert(windows[last].date == rows[last + lookback - 1].date);
        assert(rows.subrange(0, lookback as int) =~= rows.take(lookback as int));
        assert(rows.subrange(last, last + lookback) =~= rows.skip(rows.len() - lookback));
    }
}

/// Law: the header labels each close column by how many days before `t0` its close
/// lies. For a window of `lookback` closes, column `i` is labelled `t0` when it is the
/// last and `tm{j}` otherwise, where the close in that column is the one `j` days before
/// the window's `t0` day.
pub proof fn lemma_header_labels_match_columns<D, C>(
    rows: Seq<PriceRow<D, C>>,
    lookback: nat,
    k: int,
    i: int,
)
    requires
        lookback > 0,
        0 <= k < window_count(rows.len(), lookback),
        0 <= i < lookback,
    ensures
        i == lookback - 1 ==> column_label(lookback, i as nat) == "t0"@
            && lookback_closes(rows, lookback, k)[i] == rows[k + lookback - 1].close,
        forall|j: nat|
            i + j == lookback - 1 && j > 0 ==> column_label(lookback, i as nat) == "tm"@ + decimal(j)
                && #[trigger] lookback_closes(rows, lookback, k)[lookback - 1 - j] == rows[k + lookback - 1
                - j].close,
{
    lemma_lookback_column(rows, lookback, k, lookback - 1 - i);
}

/// Windows of a price history, each dated by its most recent day.
#[derive(Debug)]
pub struct PreppedDataFrame<D, C> {
    pub data: Vec<WindowRow<D, C>>,
}

/// The label of column `i` of `n` closes: `t0` for the last, `tm{n - 1 - i}` before it.
pub open spec fn column_label(n: nat, i: nat) -> Seq<char> {
    if i + 1 == n {
        "t0"@
    } else {
        "tm"@ + decimal((n - 1 - i) as nat)
    }
}

/// The labels of the first `count` of `n` close columns, each after `delimiter`.
pub open spec fn labelled_columns(delimiter: Seq<char>, n: nat, count: nat) -> Seq<char>
    decreases count,
{
    if count == 0 {
        Seq::empty()
    } else {
        labelled_columns(delimiter, n, (count - 1) as nat) + delimiter + column_label(n, (count - 1) as nat)
    }
}

/// Law: the labelled columns come in column order. The columns before column `i`,
/// followed by the delimiter and the label of column `i`, are how the columns up to any
/// later count begin; there are none before the first column.
pub proof fn lemma_columns_in_order(delimiter: Seq<char>, n: nat, i: nat, count: nat)
    requires
        i < count,
    ensures
        labelled_columns(delimiter, n, 0) == Seq::<char>::empty(),
        ({
            let head = labelled_columns(delimiter, n, i) + delimiter + column_label(n, i);
            &&& head.len() <= labelled_columns(delimiter, n, count).len()
            &&& labelled_columns(delimiter, n, count).take(head.len() as int) == head
        }),
    decreases count,
{
    let head = labelled_columns(delimiter, n, i) + delimiter + column_label(n, i);
    if i + 1 < count {
        lemma_columns_in_order(delimiter, n, i, (count - 1) as nat);
        let before = labelled_columns(delimiter, n, (count - 1) as nat);
        let all = labelled_columns(delimiter, n, count);
        assert(all == before + delimiter + column_label(n, (count - 1) as nat));
        assert(all.take(head.len() as int) =~= before.take(head.len() as int));
    } else {
        assert(labelled_columns(delimiter, n, count).take(head.len() as int) =~= head);
    }
}

/// The header line of a table of windows of `n` closes.
pub open spec fn header_text(delimiter: Seq<char>, n: nat) -> Seq<char> {
    "date"@ + labelled_columns(delimiter, n, n)
}

/// The closes of each window, in order.
pub open spec fn window_closes<D, C>(windows: Seq<WindowRow<D, C>>) -> Seq<Seq<C>> {
    windows.map_values(|w: WindowRow<D, C>| w.closes@)
}

/// The rows of a matrix held as nested vectors.
pub open spec fn matrix_rows<C>(m: Vec<Vec<C>>) -> Seq<Seq<C>> {
    m@.map_values(|row: Vec<C>| row@)
}

/// The features of a window: every close but the last.
pub open spec fn features<C>(closes: Seq<C>) -> Seq<C> {
    closes.drop_last()
}

/// The target of a window: its last close, as a row of one.
pub open spec fn target<C>(closes: Seq<C>) -> Seq<C> {
    seq![closes.last()]
}

/// Every window holds the same number of closes, at least one.
pub open spec fn uniform_windows<C>(rows: Seq<Seq<C>>) -> bool {
    &&& rows.len() > 0
    &&& rows[0].len() > 0
    &&& forall|k: int| 0 <= k < rows.len() ==> (#[trigger] rows[k]).len() == rows[0].len()
}

/// The split of `rows` at `split_index`: features and targets of the rows before it
/// train, those of the rows from it on test.
pub open spec fn split_rows<C>(rows: Seq<Seq<C>>, split_index: int) -> TrainTestSplit<Seq<Seq<C>>> {
    TrainTestSplit {
        X_train: rows.take(split_index).map_values(|r: Seq<C>| features(r)),
        X_test: rows.skip(split_index).map_values(|r: Seq<C>| features(r)),
        y_train: rows.take(split_index).map_values(|r: Seq<C>| target(r)),
        y_test: rows.skip(split_index).map_values(|r: Seq<C>| target(r)),
    }
}

/// Law: a split loses and adds nothing. Its training rows followed by its test rows
/// are all the windows, and in each row the features followed by the target are the
/// window's closes.
pub proof fn lemma_split_reassembles<C>(rows: Seq<Seq<C>>, split_index: int)
    requires
        uniform_windows(rows),
        0 <= split_index <= rows.len(),
    ensures
        ({
            let s = split_rows(rows, split_index);
            &&& s.X_train.len() + s.X_test.len() == rows.len()
            &&& s.y_train.len() == s.X_train.len()
            &&& s.y_test.len() == s.X_test.len()
            &&& forall|r: int|
                0 <= r < rows.len() ==> #[trigger] (s.X_train + s.X_test)[r] + (s.y_train + s.y_test)[r]
                    == rows[r]
        }),
{
    let s = split_rows(rows, split_index);
    assert forall|r: int| 0 <= r < rows.len() implies #[trigger] (s.X_train + s.X_test)[r] + (
    s.y_train + s.y_test)[r] == rows[r] by {
        assert(rows[r].len() == rows[0].len());
        let row = if r < split_index {
            rows.take(split_index)[r]
        } else {
            rows.skip(split_index)[r - split_index]
        };
        assert(row == rows[r]);
        assert(features(row) + target(row) =~= row);
    }
}

/// Law: the features of a window are all its closes but the last, in order, and its
/// target is its last close alone.
pub proof fn lemma_features_and_target<C>(closes: Seq<C>)
    requires
        closes.len() > 0,
    ensures
        features(closes).len() == closes.len() - 1,
        forall|i: int| 0 <= i < closes.len() - 1 ==> #[trigger] features(closes)[i] == closes[i],
        target(closes).len() == 1,
        target(closes)[0] == closes[closes.len() - 1],
{
}

/// Law: a split at `split_index` trains on exactly the windows before `split_index`
/// and tests on exactly the others, both in order. Every feature row holds the first
/// `L - 1` closes of its window and every target row holds the window's last close
/// alone, where `L` is the number of closes of a window.
pub proof fn lemma_split_at_index<C>(rows: Seq<Seq<C>>, split_index: int)
    requires
        uniform_windows(rows),
        0 <= split_index <= rows.len(),
    ensures
        ({
            let s = split_rows(rows, split_index);
            let l = rows[0].len();
            &&& s.X_train.len() == split_index
            &&& s.y_train.len() == split_index
            &&& s.X_test.len() == rows.len() - split_index
            &&& s.y_test.len() == rows.len() - split_index
            &&& forall|r: int|
                0 <= r < split_index ==> {
                    &&& (#[trigger] s.X_train[r]).len() == l - 1
                    &&& s.y_train[r].len() == 1
                    &&& s.y_train[r][0] == rows[r][l - 1]
                    &&& forall|i: int| 0 <= i < l - 1 ==> #[trigger] s.X_train[r][i] == rows[r][i]
                }
            &&& forall|r: int|
                0 <= r < rows.len() - split_index ==> {
                    &&& (#[trigger] s.X_test[r]).len() == l - 1
                    &&& s.y_test[r].len() == 1
                    &&& s.y_test[r][0] == rows[split_index + r][l - 1]
                    &&& forall|i: int| 0 <= i < l - 1 ==> #[trigger] s.X_test[r][i] == rows[split_index + r][i]
                }
        }),
{
    let s = split_rows(rows, split_index);
    let l = rows[0].len();
    assert forall|r: int| 0 <= r < split_index implies {
        &&& (#[trigger] s.X_train[r]).len() == l - 1
        &&& s.y_train[r].len() == 1
        &&& s.y_train[r][0] == rows[r][l - 1]
        &&& forall|i: int| 0 <= i < l - 1 ==> #[trigger] s.X_train[r][i] == rows[r][i]
    } by {
        assert(rows[r].len() == l);
        assert(rows.take(split_index)[r] == rows[r]);
        lemma_features_and_target(rows[r]);
    }
    assert forall|r: int| 0 <= r < rows.len() - split_index implies {
        &&& (#[trigger] s.X_test[r]).len() == l - 1
        &&& s.y_test[r].len() == 1
        &&& s.y_test[r][0] == rows[split_index + r][l - 1]
        &&& forall|i: int| 0 <= i < l - 1 ==> #[trigger] s.X_test[r][i] == rows[split_index + r][i]
    } by {
        assert(rows[split_index + r].len() == l);
        assert(rows.skip(split_index)[r] == rows[split_index + r]);
        lemma_features_and_target(rows[split_index + r]);
    }
}

/// The features of one window: all its closes but the last.
fn feature_row<C: Copy>(closes: &Vec<C>) -> (row: Vec<C>)
    requires
        closes.len() > 0,
    ensures
        row@ == features(closes@),
{
    let mut row: Vec<C> = Vec::new();
    let mut i: usize = 0;
    while i + 1 < closes.len()
        invariant
            closes.len() > 0,
            i + 1 <= closes.len(),
            row@ == closes@.take(i as int),
        decreases closes.len() - i,
    {
        row.push(closes[i]);
        i = i + 1;
        assert(row@ =~= closes@.take(i as int));
    }
    assert(row@ =~= features(closes@));
    row
}

/// The target of one window: its last close.
fn target_row<C: Copy>(closes: &Vec<C>) -> (row: Vec<C>)
    requires
        closes.len() > 0,
    ensures
        row@ == target(closes@),
{
    let mut row: Vec<C> = Vec::new();
    row.push(closes[closes.len() - 1]);
    assert(row@ =~= target(closes@));
    row
}

/// The name of the file that the windows of a ticker are written to.
pub fn lookback_file_name(ticker_name: &str) -> (name: String)
    ensures
        name@ == ticker_name@ + "_daily_lookback.tsv"@,
{
    let mut name = String::from_str(ticker_name);
    name.append("_daily_lookback.tsv");
    name
}

impl<D: Copy, C: Copy> PreppedDataFrame<D, C> {
    /// The windows of `lookback` consecutive days of `ticker_price_history_df`.
    pub fn new(ticker_price_history_df: TickerDataFrame<D, C>, lookback: usize) -> (frame: Self)
        requires
            lookback > 0,
        ensures
            t0_dated_windows(frame.data@, ticker_price_history_df.data@, lookback as nat),
    {
        let data = make_ts_windows(ticker_price_history_df, lookback);
        PreppedDataFrame { data }
    }

    /// How many closes the windows hold, read off the first window (none without windows).
    pub open spec fn column_count(&self) -> nat {
        if self.data@.len() == 0 {
            0
        } else {
            self.data@[0].closes@.len()
        }
    }

    /// The header line of the table of windows: `date`, then a label for each close,
    /// from `tm{n-1}` down to `tm1` and then `t0`, each after `delimiter`.
    pub fn window_header(&self, delimiter: &str) -> (header: String)
        ensures
            header@ == header_text(delimiter@, self.column_count()),
    {
        let n: usize = if self.data.len() == 0 {
            0
        } else {
            self.data[0].closes.len()
        };
        let mut header = String::from_str("date");
        let mut i: usize = 0;
        while i < n
            invariant
                n == self.column_count(),
                i <= n,
                header@ == "date"@ + labelled_columns(delimiter@, n as nat, i as nat),
            decreases n - i,
        {
            header.append(delimiter);
            if i == n - 1 {
                header.append("t0");
            } else {
                header.append("tm");
                push_decimal(&mut header, n - 1 - i);
            }
            i = i + 1;
            assert(header@ =~= "date"@ + labelled_columns(delimiter@, n as nat, i as nat));
        }
        header
    }

    /// Splits the windows into features (every close but the last) and target (the last
    /// close), and cuts both at `split_index`: the windows before it train, the rest test.
    pub fn train_test_split_at(&self, split_index: usize) -> (split: TrainTestSplit<Vec<Vec<C>>>)
        requires
            uniform_windows(window_closes(self.data@)),
            split_index <= self.data.len(),
        ensures
            matrix_rows(split.X_train) == split_rows(window_closes(self.data@), split_index as int).X_train,
            matrix_rows(split.X_test) == split_rows(window_closes(self.data@), split_index as int).X_test,
            matrix_rows(split.y_train) == split_rows(window_closes(self.data@), split_index as int).y_train,
            matrix_rows(split.y_test) == split_rows(window_closes(self.data@), split_index as int).y_test,
    {
        let ghost rows = window_closes(self.data@);
        let ghost want = split_rows(rows, split_index as int);
        let n = self.data.len();
        let mut x_train: Vec<Vec<C>> = Vec::new();
        let mut x_test: Vec<Vec<C>> = Vec::new();
        let mut y_train: Vec<Vec<C>> = Vec::new();
        let mut y_test: Vec<Vec<C>> = Vec::new();
        let mut k: usize = 0;
        while k < n
            invariant
                n == self.data.len(),
                rows == window_closes(self.data@),
                want == split_rows(rows, split_index as int),
                uniform_windows(rows),
                split_index <= n,
                k <= n,
                k <= split_index ==> {
                    &&& matrix_rows(x_train) == want.X_train.take(k as int)
                    &&& matrix_rows(y_train) == want.y_train.take(k as int)
                    &&& x_test.len() == 0
                    &&& y_test.len() == 0
                },
                k > split_index ==> {
                    &&& matrix_rows(x_train) == want.X_train
                    &&& matrix_rows(y_train) == want.y_train
                    &&& matrix_rows(x_test) == want.X_test.take(k - split_index)
                    &&& matrix_rows(y_test) == want.y_test.take(k - split_index)
                },
            decreases n - k,
        {
            assert(rows[k as int] == self.data@[k as int].closes@);
            assert(rows[k as int].len() == rows[0].len());
            let closes = &self.data[k].closes;
            let x = feature_row(closes);
            let y = target_row(closes);
            if k < split_index {
                assert(rows.take(split_index as int)[k as int] == rows[k as int]);
                x_train.push(x);
                y_train.push(y);
                assert(matrix_rows(x_train) =~= want.X_train.take(k + 1));
                assert(matrix_rows(y_train) =~= want.y_train.take(k + 1));
            } else {
                assert(rows.skip(split_index as int)[k - split_index] == rows[k as int]);
                x_test.push(x);
                y_test.push(y);
                assert(matrix_rows(x_test) =~= want.X_test.take(k + 1 - split_index));
                assert(matrix_rows(y_test) =~= want.y_test.take(k + 1 - split_index));
                assert(want.X_train.take(split_index as int) =~= want.X_train);
                assert(want.y_train.take(split_index as int) =~= want.y_train);
            }
            k = k + 1;
        }
        assert(want.X_test.take(n - split_index) =~= want.X_test);
        assert(want.y_test.take(n - split_index) =~= want.y_test);
        if split_index == n {
            assert(want.X_train.take(n as int) =~= want.X_train);
            assert(want.y_train.take(n as int) =~= want.y_train);
        }
        TrainTestSplit { X_train: x_train, X_test: x_test, y_train: y_train, y_test: y_test }
    }
}

} // verus!
