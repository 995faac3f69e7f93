use tickertools::cli::RunMode;
use tickertools::train::{batches, is_report_batch, is_report_epoch, Batch, ModelKind};

fn pairs(plan: &[Batch]) -> Vec<(i64, i64)> {
    plan.iter().map(|b| (b.start, b.len)).collect()
}

#[test]
fn batches_with_a_short_last_one() {
    assert_eq!(pairs(&batches(10, 3)), vec![(0, 3), (3, 3), (6, 3), (9, 1)]);
}

#[test]
fn batches_that_fit_exactly() {
    assert_eq!(pairs(&batches(6, 3)), vec![(0, 3), (3, 3)]);
    assert_eq!(pairs(&batches(4, 100)), vec![(0, 4)]);
    assert_eq!(pairs(&batches(1, 1)), vec![(0, 1)]);
}

#[test]
fn no_rows_no_batches() {
    assert!(batches(0, 5).is_empty());
    assert!(batches(-3, 5).is_empty());
}

#[test]
fn huge_batch_size_does_not_overflow() {
    assert_eq!(pairs(&batches(i64::MAX, i64::MAX)), vec![(0, i64::MAX)]);
    assert_eq!(pairs(&batches(i64::MAX, i64::MAX - 1)), vec![(0, i64::MAX - 1), (i64::MAX - 1, 1)]);
}

#[test]
fn batches_partition_the_rows() {
    for n in 0..40 {
        for bs in 1..12 {
            let plan = batches(n, bs);
            let mut next = 0;
            for (k, b) in plan.iter().enumerate() {
                assert_eq!(b.start, next);
                assert!(b.len > 0 && b.len <= bs);
                if k + 1 < plan.len() {
                    assert_eq!(b.len, bs);
                }
                next = b.start + b.len;
            }
            assert_eq!(next, n);
        }
    }
}

#[test]
fn report_epochs() {
    let reported: Vec<i64> = (1..=35).filter(|&e| is_report_epoch(e)).collect();
    assert_eq!(reported, vec![1, 10, 20, 30]);
    assert!(is_report_epoch(5000));
    assert!(!is_report_epoch(4999));
}

#[test]
fn report_batches() {
    assert!(is_report_batch(0));
    assert!(is_report_batch(100));
    assert!(!is_report_batch(1));
    assert!(!is_report_batch(199));
}

#[test]
fn stages_and_models() {
    assert_eq!(RunMode::RetrieveData.model_kind(), None);
    assert_eq!(RunMode::RunRnn.model_kind(), Some(ModelKind::VanillaRnn));
    assert_eq!(RunMode::RunLstm.model_kind(), Some(ModelKind::Lstm));
}
