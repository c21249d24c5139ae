use handson2_harness::parse::parse_record;

fn line(s: &str) -> Vec<u8> {
    s.as_bytes().to_vec()
}

#[test]
fn preamble_parses_at_arity_two() {
    assert_eq!(parse_record(&line("5 1"), Some(2)), Some(vec![5, 1]));
}

#[test]
fn surrounding_whitespace_is_ignored() {
    assert_eq!(parse_record(&line("  1 \t 2  "), Some(2)), Some(vec![1, 2]));
}

#[test]
fn plus_sign_is_accepted() {
    assert_eq!(parse_record(&line("+5 3"), Some(2)), Some(vec![5, 3]));
}

#[test]
fn wrong_token_count_fails_not_truncates() {
    // One token too many and one too few both fail the line whole.
    assert_eq!(parse_record(&line("1 2 3 4"), Some(3)), None);
    assert_eq!(parse_record(&line("1 2"), Some(3)), None);
}

#[test]
fn non_integer_token_fails() {
    assert_eq!(parse_record(&line("1 a 3"), Some(3)), None);
    assert_eq!(parse_record(&line("1 -2 3"), Some(3)), None);
}

#[test]
fn derived_arity_assignment_record() {
    assert_eq!(parse_record(&line("0 1 2 9"), None), Some(vec![0, 1, 2, 9]));
}

#[test]
fn derived_arity_max_record() {
    assert_eq!(parse_record(&line("1 0 4"), None), Some(vec![1, 0, 4]));
}

#[test]
fn derived_arity_rejects_other_discriminators() {
    assert_eq!(parse_record(&line("2 1 2"), None), None);
    assert_eq!(parse_record(&line("2 1 2 3"), None), None);
}

#[test]
fn derived_arity_rejects_wrong_count() {
    // A two-token query line for a derived-arity record fails whole.
    assert_eq!(parse_record(&line("1 0"), None), None);
    assert_eq!(parse_record(&line("0 1 2"), None), None);
}

#[test]
fn empty_line_fails_derived_arity() {
    assert_eq!(parse_record(&line(""), None), None);
    assert_eq!(parse_record(&line("   "), None), None);
}

#[test]
fn empty_line_parses_at_arity_zero() {
    assert_eq!(parse_record(&line(""), Some(0)), Some(vec![]));
}

#[test]
fn oversized_value_fails() {
    assert_eq!(parse_record(&line("99999999999999999999999999"), Some(1)), None);
}

#[test]
fn largest_value_parses() {
    let max = usize::MAX.to_string();
    assert_eq!(parse_record(&line(&max), Some(1)), Some(vec![usize::MAX]));
}

#[test]
fn lone_plus_fails() {
    assert_eq!(parse_record(&line("+"), Some(1)), None);
}
