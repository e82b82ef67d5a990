use reckon::errors::ExpectError;
use reckon::matcher::Matcher;

#[test]
fn malformed_pattern_is_rejected_at_compile_time() {
    let r = Matcher::new(vec!["(".to_string()]);
    assert!(r.is_err());
    assert_eq!(r.err().unwrap(), ExpectError::InvalidPattern);
}

#[test]
fn one_malformed_pattern_rejects_the_whole_list() {
    let r = Matcher::new(vec!["ok".to_string(), "[".to_string()]);
    assert!(r.is_err());
}

#[test]
fn empty_pattern_list_compiles() {
    let m = Matcher::new(vec![]).unwrap();
    assert_eq!(m.len(), 0);
}

#[test]
fn first_match_reports_lowest_list_position() {
    let m = Matcher::new(vec!["foo".to_string(), "oo".to_string()]).unwrap();
    // both patterns are satisfied by the text; the list order decides
    assert_eq!(m.first_match(&"foo".to_string()), Some(0));
}

#[test]
fn first_match_skips_unsatisfied_patterns() {
    let m = Matcher::new(vec!["zzz".to_string(), "oo".to_string()]).unwrap();
    assert_eq!(m.first_match(&"foo".to_string()), Some(1));
}

#[test]
fn first_match_none_when_nothing_satisfied() {
    let m = Matcher::new(vec!["a".to_string(), "b".to_string()]).unwrap();
    assert_eq!(m.first_match(&"xyz".to_string()), None);
}

#[test]
fn patterns_are_a_regular_expression_dialect() {
    let m = Matcher::new(vec!["[0-9]+".to_string()]).unwrap();
    assert_eq!(m.first_match(&"x42".to_string()), Some(0));
    assert_eq!(m.first_match(&"xyz".to_string()), None);
}

#[test]
fn empty_set_matches_nothing() {
    let m = Matcher::new(vec![]).unwrap();
    assert_eq!(m.first_match(&"anything at all".to_string()), None);
}
