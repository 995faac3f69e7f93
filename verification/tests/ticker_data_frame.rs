use tickertools::price_row::PriceRow;
use tickertools::ticker_data_frame::{make_ts_windows, PreppedDataFrame, TickerDataFrame};

fn history(n: usize) -> TickerDataFrame<u32, f64> {
    TickerDataFrame {
        ticker_name: String::from("MSFT"),
        data: (0..n).map(|i| PriceRow { date: i as u32, close: i as f64 * 2.0 }).collect(),
    }
}

#[test]
fn windows_dated_by_t0() {
    let windows = make_ts_windows(history(5), 3);
    assert_eq!(windows.len(), 3);
    assert_eq!(windows[0].date, 2);
    assert_eq!(windows[2].date, 4);
    let pair = make_ts_windows(history(2), 2);
    assert_eq!(pair.len(), 1);
    assert_eq!(pair[0].date, 1);
    assert_eq!(windows[1].closes, vec![2.0, 4.0, 6.0]);
    assert!(make_ts_windows(history(2), 3).is_empty());
}

#[test]
fn frame_dated_by_t0() {
    let prepped = PreppedDataFrame::new(history(4), 4);
    assert_eq!(prepped.data.len(), 1);
    assert_eq!(prepped.data[0].date, 3);
    assert_eq!(prepped.data[0].closes, vec![0.0, 2.0, 4.0, 6.0]);
}

#[test]
fn daily_file_name_of_ticker() {
    assert_eq!(history(0).daily_file_name(), "MSFT_daily.tsv");
}
