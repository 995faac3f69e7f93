use tickertools::split::{splits_file_name, SplitError, SplitPart, TrainTestSplit};

fn sample() -> TrainTestSplit<u8> {
    TrainTestSplit { X_train: 1, X_test: 2, y_train: 3, y_test: 4 }
}

fn named(entries: &[(&str, u8)]) -> Vec<(String, u8)> {
    entries.iter().map(|(n, v)| (n.to_string(), *v)).collect()
}

#[test]
fn entries_in_save_order() {
    let entries = sample().into_named();
    assert_eq!(entries, named(&[("X_train", 1), ("X_test", 2), ("y_train", 3), ("y_test", 4)]));
}

#[test]
fn load_after_save_gives_the_split_back() {
    let back = TrainTestSplit::from_named(sample().into_named()).unwrap();
    assert_eq!((back.X_train, back.X_test, back.y_train, back.y_test), (1, 2, 3, 4));
}

#[test]
fn entries_in_any_order_and_extra_names() {
    let entries = named(&[("y_test", 4), ("other", 9), ("X_test", 2), ("y_train", 3), ("X_train", 1)]);
    let back = TrainTestSplit::from_named(entries).unwrap();
    assert_eq!((back.X_train, back.X_test, back.y_train, back.y_test), (1, 2, 3, 4));
}

#[test]
fn later_entry_of_a_name_wins() {
    let entries = named(&[("X_train", 1), ("X_test", 2), ("y_train", 3), ("y_test", 4), ("X_train", 7)]);
    let back = TrainTestSplit::from_named(entries).unwrap();
    assert_eq!(back.X_train, 7);
}

#[test]
fn first_missing_part_is_reported() {
    let err = TrainTestSplit::<u8>::from_named(Vec::new()).unwrap_err();
    assert_eq!(err, SplitError::MissingTensor(SplitPart::XTrain));
    assert_eq!(err.message(), "missing tensor `X_train` in split file");

    let err = TrainTestSplit::from_named(named(&[("X_train", 1), ("X_test", 2), ("y_test", 4)])).unwrap_err();
    assert_eq!(err, SplitError::MissingTensor(SplitPart::YTrain));
    assert_eq!(err.message(), "missing tensor `y_train` in split file");

    let err = TrainTestSplit::from_named(named(&[("X_train", 1), ("y_train", 3), ("y_test", 4)])).unwrap_err();
    assert_eq!(err.message(), "missing tensor `X_test` in split file");

    let err = TrainTestSplit::from_named(named(&[("X_train", 1), ("X_test", 2), ("y_train", 3)])).unwrap_err();
    assert_eq!(err.message(), "missing tensor `y_test` in split file");
}

#[test]
fn part_names() {
    assert_eq!(SplitPart::XTrain.name(), "X_train");
    assert_eq!(SplitPart::XTest.name(), "X_test");
    assert_eq!(SplitPart::YTrain.name(), "y_train");
    assert_eq!(SplitPart::YTest.name(), "y_test");
}

#[test]
fn splits_file_name_of_ticker() {
    assert_eq!(splits_file_name("AMZN"), "AMZN_splits.ot");
}
