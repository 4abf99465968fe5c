use student_reports::aggregate::{AggregateError, Aggregator, Directive};
use student_reports::fetch::FetchError;
use student_reports::record::{IdentityRecord, ScoreRecord};
use student_reports::score::Score;

fn student(id: u32) -> (IdentityRecord, ScoreRecord) {
    (
        IdentityRecord { first_name: format!("First{}", id), last_name: format!("Last{}", id) },
        ScoreRecord { score: Score::from_bits((id as f64).to_bits()) },
    )
}

#[test]
fn input_order_whatever_the_completion_order() {
    let ids = vec![3u32, 1, 2];
    let orders: [[usize; 3]; 6] =
        [[0, 1, 2], [0, 2, 1], [1, 0, 2], [1, 2, 0], [2, 0, 1], [2, 1, 0]];
    for order in orders {
        let mut aggregator = Aggregator::new(&ids);
        for index in order {
            assert_eq!(aggregator.record(index, Ok(student(ids[index]))), Directive::KeepWaiting);
        }
        assert_eq!(aggregator.finish(), Some(Ok(vec![student(3), student(1), student(2)])));
    }
}

#[test]
fn one_failure_fails_the_batch() {
    let ids = vec![10u32, 20, 30, 40];
    for failing in 0..ids.len() {
        for when in 0..ids.len() {
            let mut order: Vec<usize> = (0..ids.len()).filter(|&i| i != failing).collect();
            order.insert(when.min(order.len()), failing);
            let mut aggregator = Aggregator::new(&ids);
            for index in order {
                if index == failing {
                    aggregator.record(index, Err(FetchError::NotFound));
                } else {
                    aggregator.record(index, Ok(student(ids[index])));
                }
            }
            assert_eq!(
                aggregator.finish(),
                Some(Err(AggregateError { student_id: ids[failing], cause: FetchError::NotFound }))
            );
        }
    }
}

#[test]
fn failure_is_reported_at_once() {
    let ids = vec![5u32, 6, 7];
    let mut aggregator = Aggregator::new(&ids);
    assert_eq!(aggregator.record(1, Ok(student(6))), Directive::KeepWaiting);
    assert_eq!(aggregator.record(2, Err(FetchError::Network)), Directive::Abandon);
    assert_eq!(
        aggregator.finish(),
        Some(Err(AggregateError { student_id: 7, cause: FetchError::Network }))
    );
}

#[test]
fn first_detected_failure_wins() {
    let ids = vec![5u32, 6, 7];
    let mut aggregator = Aggregator::new(&ids);
    assert_eq!(aggregator.record(2, Err(FetchError::Decode)), Directive::Abandon);
    assert_eq!(aggregator.record(0, Err(FetchError::Network)), Directive::Abandon);
    assert_eq!(aggregator.record(1, Ok(student(6))), Directive::Abandon);
    assert_eq!(
        aggregator.finish(),
        Some(Err(AggregateError { student_id: 7, cause: FetchError::Decode }))
    );
}

#[test]
fn nothing_to_report_while_fetches_are_awaited() {
    let ids = vec![1u32, 2];
    let mut aggregator = Aggregator::new(&ids);
    aggregator.record(0, Ok(student(1)));
    assert_eq!(aggregator.finish(), None);
    assert_eq!(Aggregator::new(&ids).finish(), None);
}

#[test]
fn empty_batch_is_complete() {
    let aggregator = Aggregator::new(&Vec::new());
    assert_eq!(aggregator.finish(), Some(Ok(Vec::new())));
}

#[test]
fn duplicate_identifiers_give_duplicate_rows() {
    let ids = vec![4u32, 4];
    let mut aggregator = Aggregator::new(&ids);
    aggregator.record(1, Ok(student(4)));
    aggregator.record(0, Ok(student(4)));
    assert_eq!(aggregator.finish(), Some(Ok(vec![student(4), student(4)])));
}

#[test]
fn completion_outside_the_batch_is_ignored() {
    let ids = vec![1u32];
    let mut aggregator = Aggregator::new(&ids);
    assert_eq!(aggregator.record(1, Err(FetchError::Network)), Directive::KeepWaiting);
    assert_eq!(aggregator.record(7, Ok(student(9))), Directive::KeepWaiting);
    assert_eq!(aggregator.record(0, Ok(student(1))), Directive::KeepWaiting);
    assert_eq!(aggregator.finish(), Some(Ok(vec![student(1)])));
}

#[test]
fn second_success_for_a_place_is_ignored() {
    let ids = vec![1u32, 2];
    let mut aggregator = Aggregator::new(&ids);
    aggregator.record(0, Ok(student(1)));
    aggregator.record(0, Ok(student(99)));
    aggregator.record(1, Ok(student(2)));
    assert_eq!(aggregator.finish(), Some(Ok(vec![student(1), student(2)])));
}

#[test]
fn each_cause_is_passed_on() {
    for cause in [FetchError::Network, FetchError::Decode, FetchError::NotFound] {
        let ids = vec![11u32, 12];
        let mut aggregator = Aggregator::new(&ids);
        aggregator.record(0, Ok(student(11)));
        assert_eq!(aggregator.record(1, Err(cause)), Directive::Abandon);
        assert_eq!(aggregator.finish(), Some(Err(AggregateError { student_id: 12, cause })));
    }
}
