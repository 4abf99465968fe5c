use student_reports::decimal::append_decimal;
use student_reports::endpoint::get_urls_for_id;
use student_reports::fetch::{fetch_result, missing_records_message, FetchError, Reply};
use student_reports::record::{IdentityRecord, ScoreRecord};
use student_reports::score::Score;

fn identity(first: &str, last: &str) -> IdentityRecord {
    IdentityRecord { first_name: first.to_string(), last_name: last.to_string() }
}

fn score(value: f64) -> ScoreRecord {
    ScoreRecord { score: Score::from_bits(value.to_bits()) }
}

#[test]
fn urls_for_an_identifier() {
    let (score_url, identity_url) = get_urls_for_id(101);
    assert_eq!(
        score_url,
        "https://demo.aeries.net/aeries/api/v5/schools/994/gpas/101?cert=477abe9e7d27439681d62f4e0de1f5e1"
    );
    assert_eq!(
        identity_url,
        "https://demo.aeries.net/aeries/api/v5/schools/994/students/101?cert=477abe9e7d27439681d62f4e0de1f5e1"
    );
}

#[test]
fn urls_follow_the_identifier() {
    for id in [0u32, 7, 10, 99, 100, 12345, 1_000_000, 4_294_967_295] {
        let (score_url, identity_url) = get_urls_for_id(id);
        assert_eq!(
            score_url,
            format!(
                "https://demo.aeries.net/aeries/api/v5/schools/994/gpas/{}?cert=477abe9e7d27439681d62f4e0de1f5e1",
                id
            )
        );
        assert_eq!(
            identity_url,
            format!(
                "https://demo.aeries.net/aeries/api/v5/schools/994/students/{}?cert=477abe9e7d27439681d62f4e0de1f5e1",
                id
            )
        );
    }
}

#[test]
fn decimal_notation() {
    for n in [0u32, 1, 9, 10, 11, 19, 20, 101, 1000, 65535, 4_294_967_295] {
        let mut text = String::from("id ");
        append_decimal(&mut text, n);
        assert_eq!(text, format!("id {}", n));
    }
}

#[test]
fn both_first_records_are_taken() {
    let result = fetch_result(
        Reply::Records(vec![identity("Alice", "A"), identity("Other", "O")]),
        Reply::Records(vec![score(1.5), score(9.0)]),
    );
    assert_eq!(result, Ok((identity("Alice", "A"), score(1.5))));
}

#[test]
fn single_element_lists_succeed() {
    let result =
        fetch_result(Reply::Records(vec![identity("Bob", "B")]), Reply::Records(vec![score(3.0)]));
    assert_eq!(result, Ok((identity("Bob", "B"), score(3.0))));
}

#[test]
fn transport_failure_of_either_request_is_network() {
    assert_eq!(
        fetch_result(Reply::Unreachable, Reply::Records(vec![score(1.0)])),
        Err(FetchError::Network)
    );
    assert_eq!(
        fetch_result(Reply::Records(vec![identity("A", "B")]), Reply::Unreachable),
        Err(FetchError::Network)
    );
    assert_eq!(fetch_result(Reply::Unreachable, Reply::Unreachable), Err(FetchError::Network));
}

#[test]
fn malformed_payload_is_decode() {
    assert_eq!(
        fetch_result(Reply::Malformed, Reply::Records(vec![score(1.0)])),
        Err(FetchError::Decode)
    );
    assert_eq!(
        fetch_result(Reply::Records(vec![identity("A", "B")]), Reply::Malformed),
        Err(FetchError::Decode)
    );
    assert_eq!(fetch_result(Reply::Malformed, Reply::Records(vec![])), Err(FetchError::Decode));
}

#[test]
fn empty_list_is_not_found() {
    assert_eq!(
        fetch_result(Reply::Records(vec![]), Reply::Records(vec![score(1.0)])),
        Err(FetchError::NotFound)
    );
    assert_eq!(
        fetch_result(Reply::Records(vec![identity("A", "B")]), Reply::Records(vec![])),
        Err(FetchError::NotFound)
    );
    assert_eq!(
        fetch_result(Reply::Records(vec![]), Reply::Records(vec![])),
        Err(FetchError::NotFound)
    );
}

#[test]
fn transport_failure_comes_before_the_other_errors() {
    assert_eq!(fetch_result(Reply::Unreachable, Reply::Malformed), Err(FetchError::Network));
    assert_eq!(fetch_result(Reply::Malformed, Reply::Unreachable), Err(FetchError::Network));
    assert_eq!(fetch_result(Reply::Records(vec![]), Reply::Unreachable), Err(FetchError::Network));
}

#[test]
fn message_names_the_student() {
    assert_eq!(missing_records_message(102), "Failed to fetch data for student ID: 102");
    assert_eq!(missing_records_message(0), "Failed to fetch data for student ID: 0");
}
