use handson2_harness::adapters::is_there_results;
use handson2_harness::adapters::min_max_results;
use handson2_harness::adapters::run_case;
use handson2_harness::adapters::DiagKind;
use handson2_harness::outputs::check_outputs;
use handson2_harness::report::format_header_line;
use handson2_harness::report::format_input_path;
use handson2_harness::report::format_output_path;
use handson2_harness::report::format_result_line;
use handson2_harness::report::format_usize;

fn lines(xs: &[&str]) -> Vec<Vec<u8>> {
    xs.iter().map(|s| s.as_bytes().to_vec()).collect()
}

#[test]
fn scenario_max_over_whole_range() {
    let input = lines(&["5 1", "1 2 3 4 5", "1 0 4"]);
    let (res, diags) = min_max_results(&input);
    assert_eq!(res, Some(vec![5]));
    assert!(diags.is_empty());
    let expected = lines(&["5"]);
    let (passed, diags) = run_case(1, &input, &expected);
    assert!(passed);
    assert!(diags.is_empty());
}

#[test]
fn scenario_assign_then_query() {
    let input = lines(&["3 2", "1 1 1", "0 0 2 9", "1 0 2"]);
    let (res, _) = min_max_results(&input);
    assert_eq!(res, Some(vec![9]));
}

#[test]
fn scenario_interval_coverage() {
    let input = lines(&["2 1", "0 5", "2 3", "2 3 2"]);
    let (res, diags) = is_there_results(&input);
    assert_eq!(res, Some(vec![1]));
    assert!(diags.is_empty());
    let expected = lines(&["1"]);
    let (passed, _) = run_case(2, &input, &expected);
    assert!(passed);
}

#[test]
fn scenario_malformed_query_is_skipped() {
    // A two-token query line emits a diagnostic, appends no entry, and the
    // case still proceeds to verification with the shorter result sequence.
    let input = lines(&["2 2", "1 2", "1 0", "1 0 1"]);
    let (res, diags) = min_max_results(&input);
    assert_eq!(res, Some(vec![2]));
    assert_eq!(diags, vec![DiagKind::ParseError]);
    let expected = lines(&["2"]);
    let (passed, diags) = run_case(1, &input, &expected);
    assert!(passed);
    assert_eq!(diags, vec![DiagKind::ParseError]);
}

#[test]
fn result_sequence_has_one_entry_per_interval_query() {
    // The Interval-Frequency adapter never drops an entry: length is m.
    let input = lines(&["1 3", "0 2", "0 2 1", "0 2 5", "3 9 0"]);
    let (res, _) = is_there_results(&input);
    assert_eq!(res, Some(vec![1, 0, 1]));
}

#[test]
fn interval_query_parse_failure_fails_the_case() {
    let input = lines(&["1 2", "0 2", "0 2", "0 2 1"]);
    let (res, diags) = is_there_results(&input);
    assert_eq!(res, None);
    assert_eq!(diags, vec![DiagKind::ParseError]);
    let (passed, _) = run_case(2, &input, &lines(&["1", "1"]));
    assert!(!passed);
}

#[test]
fn interval_build_failure_is_reported() {
    let input = lines(&["1 1", "5 2", "0 0 0"]);
    let (res, diags) = is_there_results(&input);
    assert_eq!(res, None);
    assert_eq!(diags, vec![DiagKind::BuildError]);
}

#[test]
fn max_build_failure_is_reported() {
    let input = lines(&["0 0", ""]);
    let (res, diags) = min_max_results(&input);
    assert_eq!(res, None);
    assert_eq!(diags, vec![DiagKind::BuildError]);
}

#[test]
fn preamble_parse_failure_is_reported() {
    let input = lines(&["zap"]);
    let (res, diags) = min_max_results(&input);
    assert_eq!(res, None);
    assert_eq!(diags, vec![DiagKind::ParseError]);
}

#[test]
fn prefix_match_passes_with_leftover_expected_lines() {
    // The documented quirk: a result sequence that matches only a strict
    // prefix of the expected lines is reported as passing.
    let input = lines(&["5 1", "1 2 3 4 5", "1 0 4"]);
    let expected = lines(&["5", "99", "100"]);
    let (passed, _) = run_case(1, &input, &expected);
    assert!(passed);
}

#[test]
fn mismatch_fails_the_case() {
    let input = lines(&["5 1", "1 2 3 4 5", "1 0 4"]);
    let expected = lines(&["4"]);
    let (passed, _) = run_case(1, &input, &expected);
    assert!(!passed);
}

#[test]
fn running_twice_reports_identically() {
    let input = lines(&["3 2", "1 1 1", "0 0 2 9", "1 0 2"]);
    let expected = lines(&["9"]);
    let first = run_case(1, &input, &expected);
    let second = run_case(1, &input, &expected);
    assert_eq!(first.0, second.0);
    assert_eq!(first.1, second.1);
}

#[test]
fn reordering_two_queries_reorders_their_entries() {
    let forward = lines(&["3 2", "1 5 3", "1 0 0", "1 2 2"]);
    let backward = lines(&["3 2", "1 5 3", "1 2 2", "1 0 0"]);
    let (res_forward, _) = min_max_results(&forward);
    let (res_backward, _) = min_max_results(&backward);
    assert_eq!(res_forward, Some(vec![1, 3]));
    assert_eq!(res_backward, Some(vec![3, 1]));
}

#[test]
fn absent_max_is_dropped_from_the_results() {
    // One query over positions outside the array yields no entry; the
    // result sequence holds exactly the defined maxima, in query order.
    let input = lines(&["2 3", "4 9", "1 5 7", "1 0 1", "0 0 0 2"]);
    let (res, diags) = min_max_results(&input);
    assert_eq!(res, Some(vec![9]));
    assert!(diags.is_empty());
}

#[test]
fn check_outputs_compares_in_order() {
    assert!(check_outputs(&lines(&["5", "6"]), &vec![5, 6]));
    assert!(!check_outputs(&lines(&["5", "6"]), &vec![5, 7]));
    assert!(check_outputs(&lines(&["5", "6"]), &vec![5]));
    assert!(check_outputs(&lines(&[]), &vec![]));
    assert!(!check_outputs(&lines(&[]), &vec![5]));
    assert!(!check_outputs(&lines(&["x"]), &vec![5]));
}

#[test]
fn report_lines_are_formatted() {
    assert_eq!(format_result_line(true, 3), b"Test 3 - Passed".to_vec());
    assert_eq!(format_result_line(false, 10), b"Test 10 - Failed".to_vec());
    assert_eq!(format_header_line(2), b"Testing Problem #2".to_vec());
}

#[test]
fn fixture_paths_follow_the_template() {
    assert_eq!(format_input_path(1, 0), b"./Testset_handson2_p1/input0.txt".to_vec());
    assert_eq!(format_output_path(2, 10), b"./Testset_handson2_p2/output10.txt".to_vec());
}

#[test]
fn decimal_formatting_is_exact() {
    assert_eq!(format_usize(0), b"0".to_vec());
    assert_eq!(format_usize(907), b"907".to_vec());
    assert_eq!(format_usize(10), b"10".to_vec());
}
