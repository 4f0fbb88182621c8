use starknet_event_query::comparison::check_received_data;
use starknet_event_query::error::QueryError;

fn line(n: usize) -> String {
    format!("{{\"block_number\":{},\"from_address\":\"0x{:x}\"}}", n, n)
}

fn reordered(n: usize) -> String {
    format!("{{ \"from_address\": \"0x{:x}\", \"block_number\": {} }}", n, n)
}

#[test]
fn equal_lists_verify() {
    let lines: Vec<String> = (0..10).map(line).collect();
    assert_eq!(check_received_data(&lines, &lines), Ok(()));
}

#[test]
fn empty_lists_verify() {
    assert_eq!(check_received_data(&vec![], &vec![]), Ok(()));
}

#[test]
fn member_order_and_white_space_do_not_matter() {
    let actual: Vec<String> = (0..10).map(line).collect();
    let expected: Vec<String> = (0..10).map(reordered).collect();
    assert_eq!(check_received_data(&actual, &expected), Ok(()));
}

#[test]
fn difference_at_index_4_is_reported_at_index_4() {
    let actual: Vec<String> = (0..10).map(line).collect();
    let mut expected = actual.clone();
    expected[4] = line(40);
    assert_eq!(
        check_received_data(&actual, &expected),
        Err(QueryError::VerificationMismatch {
            index: 4,
            actual: Some(line(4)),
            expected: Some(line(40)),
        })
    );
}

#[test]
fn first_of_several_differences_is_reported() {
    let actual: Vec<String> = (0..10).map(line).collect();
    let mut expected = actual.clone();
    expected[7] = line(70);
    expected[2] = reordered(20);
    expected[9] = "junk".to_string();
    assert_eq!(
        check_received_data(&actual, &expected),
        Err(QueryError::VerificationMismatch {
            index: 2,
            actual: Some(line(2)),
            expected: Some(line(20)),
        })
    );
}

#[test]
fn order_of_events_matters() {
    let actual = vec![line(1), line(2)];
    let expected = vec![line(2), line(1)];
    assert_eq!(
        check_received_data(&actual, &expected),
        Err(QueryError::VerificationMismatch {
            index: 0,
            actual: Some(line(1)),
            expected: Some(line(2)),
        })
    );
}

#[test]
fn shorter_actual_is_a_mismatch_at_its_end() {
    let expected: Vec<String> = (0..5).map(reordered).collect();
    let actual: Vec<String> = (0..3).map(line).collect();
    assert_eq!(
        check_received_data(&actual, &expected),
        Err(QueryError::VerificationMismatch { index: 3, actual: None, expected: Some(reordered(3)) })
    );
}

#[test]
fn longer_actual_is_a_mismatch_at_the_fixture_end() {
    let expected: Vec<String> = (0..3).map(line).collect();
    let actual: Vec<String> = (0..5).map(reordered).collect();
    assert_eq!(
        check_received_data(&actual, &expected),
        Err(QueryError::VerificationMismatch { index: 3, actual: Some(reordered(3)), expected: None })
    );
    assert_eq!(
        check_received_data(&actual, &vec![]),
        Err(QueryError::VerificationMismatch { index: 0, actual: Some(reordered(0)), expected: None })
    );
}

#[test]
fn difference_before_the_shorter_end_comes_first() {
    let actual = vec![line(0), line(1)];
    let expected = vec![line(0), line(5), line(2)];
    assert_eq!(
        check_received_data(&actual, &expected),
        Err(QueryError::VerificationMismatch {
            index: 1,
            actual: Some(line(1)),
            expected: Some(line(5)),
        })
    );
}

#[test]
fn malformed_line_is_reported_as_such() {
    let good: Vec<String> = (0..3).map(line).collect();
    let mut bad = good.clone();
    bad[1] = "[]".to_string();
    assert_eq!(check_received_data(&bad, &good), Err(QueryError::MalformedEvent));
    assert_eq!(check_received_data(&good, &bad), Err(QueryError::MalformedEvent));
}

#[test]
fn mismatch_before_malformed_line_comes_first() {
    let actual = vec![line(0), line(1), "junk".to_string()];
    let expected = vec![line(0), line(9), line(2)];
    assert_eq!(
        check_received_data(&actual, &expected),
        Err(QueryError::VerificationMismatch {
            index: 1,
            actual: Some(line(1)),
            expected: Some(line(9)),
        })
    );
}

#[test]
fn extra_member_is_a_mismatch() {
    let actual = vec![r#"{"block_number":1,"amount":"0x1"}"#.to_string()];
    let expected = vec![r#"{"block_number":1}"#.to_string()];
    assert_eq!(
        check_received_data(&actual, &expected),
        Err(QueryError::VerificationMismatch {
            index: 0,
            actual: Some(r#"{"amount":"0x1","block_number":1}"#.to_string()),
            expected: Some(r#"{"block_number":1}"#.to_string()),
        })
    );
}

#[test]
fn block_hash_does_not_matter() {
    let bare: Vec<String> = (0..4).map(line).collect();
    let hashed: Vec<String> = (0..4)
        .map(|n| format!("{{\"block_hash\":\"0x{:x}\",\"block_number\":{},\"from_address\":\"0x{:x}\"}}", n + 9, n, n))
        .collect();
    assert_eq!(check_received_data(&bare, &hashed), Ok(()));
    assert_eq!(check_received_data(&hashed, &bare), Ok(()));
    assert_eq!(check_received_data(&hashed, &hashed), Ok(()));
}

#[test]
fn mismatch_is_reported_without_block_hash() {
    let actual = vec![r#"{"block_hash":"0x1","block_number":1}"#.to_string()];
    let expected = vec![r#"{"block_hash":"0x1","block_number":2}"#.to_string()];
    assert_eq!(
        check_received_data(&actual, &expected),
        Err(QueryError::VerificationMismatch {
            index: 0,
            actual: Some(r#"{"block_number":1}"#.to_string()),
            expected: Some(r#"{"block_number":2}"#.to_string()),
        })
    );
}
