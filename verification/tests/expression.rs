use dcron::expression::{count_fields, engine_expression, is_registrable};

#[test]
fn counts_whitespace_separated_fields() {
    assert_eq!(count_fields(""), 0);
    assert_eq!(count_fields("   "), 0);
    assert_eq!(count_fields("@daily"), 1);
    assert_eq!(count_fields("0 0 * * *"), 5);
    assert_eq!(count_fields("0 0 0 * * *"), 6);
    assert_eq!(count_fields("0 15 6,8,10 * Mar,Jun Fri 2017"), 7);
}

#[test]
fn counts_fields_across_tabs_and_line_breaks() {
    assert_eq!(count_fields("\t0\t0  *\r\n*   * "), 5);
    assert_eq!(count_fields(" a"), 1);
    assert_eq!(count_fields("a "), 1);
}

#[test]
fn counts_fields_of_text_beyond_ascii() {
    assert_eq!(count_fields("é ü ñ"), 3);
}

#[test]
fn five_fields_get_a_seconds_field() {
    assert_eq!(engine_expression("0 0 * * *"), "0 0 0 * * *");
    assert_eq!(engine_expression("*/5 * * * *"), "0 */5 * * * *");
    assert_eq!(engine_expression(" 1 2 3 4 5"), "0  1 2 3 4 5");
}

#[test]
fn other_expressions_stay_as_they_are() {
    assert_eq!(engine_expression("0 0 0 * * *"), "0 0 0 * * *");
    assert_eq!(engine_expression("0 15 6 * Mar Fri 2017"), "0 15 6 * Mar Fri 2017");
    assert_eq!(engine_expression("@daily"), "@daily");
    assert_eq!(engine_expression(""), "");
    assert_eq!(engine_expression("1 2 3 4"), "1 2 3 4");
}

#[test]
fn plain_expressions_are_registrable() {
    assert!(is_registrable("0 0 0 * * *"));
    assert!(is_registrable("0 15 6,8,10 * Mar,Jun Fri"));
    assert!(is_registrable("1/10 * * * * *"));
    assert!(is_registrable("@daily"));
    assert!(is_registrable(""));
    assert!(is_registrable("0 0/100 * * * *"));
    assert!(is_registrable("0 0/0100 * * * *"));
    assert!(is_registrable("whatever this is"));
}

#[test]
fn a_step_of_zero_is_not_registrable() {
    assert!(!is_registrable("0/0 * * * * *"));
    assert!(!is_registrable("* * * * * 1/0"));
    assert!(!is_registrable("0/000 * * * * *"));
    assert!(!is_registrable("0/ \t0 * * * * *"));
    assert!(!is_registrable("/0"));
    assert!(is_registrable("0/"));
    assert!(is_registrable("0/ "));
    assert!(is_registrable("0/01 * * * * *"));
}

#[test]
fn a_seventh_field_is_not_registrable() {
    assert!(!is_registrable("0 0 0 * * * 2029"));
    assert!(!is_registrable("0 0 0 * * * *"));
    assert!(is_registrable("0 0 0 * * *"));
}

#[test]
fn glued_tokens_are_not_registrable() {
    assert!(!is_registrable("0 0 0 * * *2029"));
    assert!(!is_registrable("**"));
    assert!(!is_registrable("5Mon"));
    assert!(!is_registrable("Mon5"));
    assert!(!is_registrable("1*"));
    assert!(is_registrable("Mon-Fri"));
    assert!(is_registrable("1,2,3"));
    assert!(is_registrable("10-20/5"));
}
