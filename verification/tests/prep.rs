use chrono::{DateTime, TimeZone, Utc};
use tickertools::prep::{lookback_file_name, make_ts_windows, PreppedDataFrame, WindowRow};
use tickertools::price_row::PriceRow;
use tickertools::ticker_data_frame::TickerDataFrame;

fn history(n: usize) -> TickerDataFrame<i64, f64> {
    TickerDataFrame {
        ticker_name: String::from("AMZN"),
        data: (0..n)
            .map(|i| PriceRow { date: 100 + i as i64, close: 10.0 + i as f64 })
            .collect(),
    }
}

fn frame(windows: &[&[f64]]) -> PreppedDataFrame<i64, f64> {
    PreppedDataFrame {
        data: windows
            .iter()
            .enumerate()
            .map(|(k, w)| WindowRow { date: k as i64, closes: w.to_vec() })
            .collect(),
    }
}

#[test]
fn windows_are_dated_by_their_last_day() {
    let windows = make_ts_windows(history(10), 8);
    assert_eq!(windows.len(), 3);
    for (k, w) in windows.iter().enumerate() {
        assert_eq!(w.date, 100 + k as i64 + 7);
        let expected: Vec<f64> = (k..k + 8).map(|i| 10.0 + i as f64).collect();
        assert_eq!(w.closes, expected);
    }
}

#[test]
fn tm_columns_hold_earlier_closes() {
    // Column tm{j} of a window holds the close j days before its t0 day.
    let rows = history(9);
    let windows = make_ts_windows(rows.clone(), 8);
    for (k, w) in windows.iter().enumerate() {
        let t0 = k + 7;
        for j in 0..8 {
            assert_eq!(w.closes[7 - j], rows.data[t0 - j].close);
        }
    }
}

#[test]
fn too_short_history_has_no_windows() {
    assert!(make_ts_windows(history(7), 8).is_empty());
    assert!(make_ts_windows(history(0), 1).is_empty());
    assert_eq!(make_ts_windows(history(8), 8).len(), 1);
    assert_eq!(make_ts_windows(history(5), 1).len(), 5);
}

#[test]
fn new_keeps_chrono_dates() {
    let day = |d: u32| -> DateTime<Utc> { Utc.with_ymd_and_hms(2024, 1, d, 0, 0, 0).unwrap() };
    let df = TickerDataFrame {
        ticker_name: String::from("AMZN"),
        data: (1..=4).map(|d| PriceRow { date: day(d), close: d as f64 }).collect(),
    };
    let prepped = PreppedDataFrame::new(df, 2);
    assert_eq!(prepped.data.len(), 3);
    assert_eq!(prepped.data[0].date, day(2));
    assert_eq!(prepped.data[2].date, day(4));
    assert_eq!(prepped.data[2].closes, vec![3.0, 4.0]);
}

#[test]
fn header_of_eight_day_windows() {
    let prepped = PreppedDataFrame::new(history(10), 8);
    assert_eq!(
        prepped.window_header("\t"),
        "date\ttm7\ttm6\ttm5\ttm4\ttm3\ttm2\ttm1\tt0"
    );
}

#[test]
fn header_with_two_digit_labels_and_other_delimiter() {
    let prepped = PreppedDataFrame::new(history(12), 12);
    assert_eq!(
        prepped.window_header(","),
        "date,tm11,tm10,tm9,tm8,tm7,tm6,tm5,tm4,tm3,tm2,tm1,t0"
    );
}

#[test]
fn header_without_windows_is_date_only() {
    let prepped = PreppedDataFrame::new(history(3), 8);
    assert_eq!(prepped.window_header("\t"), "date");
    let single = PreppedDataFrame::new(history(3), 1);
    assert_eq!(single.window_header("\t"), "date\tt0");
}

#[test]
fn split_cuts_features_and_target() {
    let prepped = frame(&[&[1.0, 2.0, 3.0], &[2.0, 3.0, 4.0], &[3.0, 4.0, 5.0], &[4.0, 5.0, 6.0]]);
    let split = prepped.train_test_split_at(3);
    assert_eq!(split.X_train, vec![vec![1.0, 2.0], vec![2.0, 3.0], vec![3.0, 4.0]]);
    assert_eq!(split.y_train, vec![vec![3.0], vec![4.0], vec![5.0]]);
    assert_eq!(split.X_test, vec![vec![4.0, 5.0]]);
    assert_eq!(split.y_test, vec![vec![6.0]]);
}

#[test]
fn split_at_the_ends() {
    let prepped = frame(&[&[1.0, 2.0], &[3.0, 4.0]]);
    let all_test = prepped.train_test_split_at(0);
    assert!(all_test.X_train.is_empty() && all_test.y_train.is_empty());
    assert_eq!(all_test.X_test, vec![vec![1.0], vec![3.0]]);
    assert_eq!(all_test.y_test, vec![vec![2.0], vec![4.0]]);
    let all_train = prepped.train_test_split_at(2);
    assert!(all_train.X_test.is_empty() && all_train.y_test.is_empty());
    let single = frame(&[&[7.0], &[8.0]]).train_test_split_at(1);
    assert_eq!(single.X_train, vec![Vec::<f64>::new()]);
    assert_eq!(single.y_train, vec![vec![7.0]]);
}

#[test]
fn split_reassembles_every_window() {
    let prepped = PreppedDataFrame::new(history(20), 8);
    let split = prepped.train_test_split_at(10);
    let xs: Vec<Vec<f64>> = split.X_train.iter().chain(split.X_test.iter()).cloned().collect();
    let ys: Vec<Vec<f64>> = split.y_train.iter().chain(split.y_test.iter()).cloned().collect();
    assert_eq!(xs.len(), prepped.data.len());
    for (k, w) in prepped.data.iter().enumerate() {
        let mut row = xs[k].clone();
        row.extend(ys[k].iter());
        assert_eq!(&row, &w.closes);
    }
}

#[test]
fn lookback_file_name_of_ticker() {
    assert_eq!(lookback_file_name("AMZN"), "AMZN_daily_lookback.tsv");
    assert_eq!(lookback_file_name(""), "_daily_lookback.tsv");
}
