use sam_prep::check_decimal_number;
use sam_prep::parse;
use sam_prep::MalformedPointError;

#[test]
fn single_positive_point() {
    let r = parse(&vec!["0.4,0.2".to_string()], &vec![]).unwrap();
    assert_eq!(r.len(), 1);
    assert_eq!(r[0].x, "0.4");
    assert_eq!(r[0].y, "0.2");
    assert!(r[0].is_positive);
    // The numeric values round-trip exactly.
    assert_eq!(r[0].x.parse::<f64>().unwrap(), 0.4);
    assert_eq!(r[0].y.parse::<f64>().unwrap(), 0.2);
}

#[test]
fn missing_comma_is_rejected() {
    let e = parse(&vec!["0.4".to_string()], &vec![]).unwrap_err();
    match e {
        MalformedPointError::NotAPair { input } => assert_eq!(input, "0.4"),
        MalformedPointError::NotANumber { .. } => panic!("wrong error kind"),
    }
}

#[test]
fn empty_input_yields_empty_list() {
    let r = parse(&vec![], &vec![]).unwrap();
    assert!(r.is_empty());
}

#[test]
fn positives_precede_negatives_in_input_order() {
    let pos = vec!["0.1,0.2".to_string(), "0.3,0.4".to_string()];
    let neg = vec!["0.5,0.6".to_string()];
    let r = parse(&pos, &neg).unwrap();
    assert_eq!(r.len(), 3);
    assert_eq!((r[0].x.as_str(), r[0].y.as_str(), r[0].is_positive), ("0.1", "0.2", true));
    assert_eq!((r[1].x.as_str(), r[1].y.as_str(), r[1].is_positive), ("0.3", "0.4", true));
    assert_eq!((r[2].x.as_str(), r[2].y.as_str(), r[2].is_positive), ("0.5", "0.6", false));
}

#[test]
fn non_numeric_token_is_named() {
    let e = parse(&vec!["a,0.2".to_string()], &vec![]).unwrap_err();
    match e {
        MalformedPointError::NotANumber { token } => assert_eq!(token, "a"),
        MalformedPointError::NotAPair { .. } => panic!("wrong error kind"),
    }
}

#[test]
fn three_tokens_are_rejected() {
    let e = parse(&vec!["1,2,3".to_string()], &vec![]).unwrap_err();
    match e {
        MalformedPointError::NotAPair { input } => assert_eq!(input, "1,2,3"),
        MalformedPointError::NotANumber { .. } => panic!("wrong error kind"),
    }
}

#[test]
fn negative_list_is_validated_too() {
    let e = parse(&vec!["1,2".to_string()], &vec!["bad".to_string()]).unwrap_err();
    match e {
        MalformedPointError::NotAPair { input } => assert_eq!(input, "bad"),
        MalformedPointError::NotANumber { .. } => panic!("wrong error kind"),
    }
}

#[test]
fn first_malformed_entry_is_reported() {
    let e = parse(&vec!["x,y".to_string(), "1,2,3".to_string()], &vec![]).unwrap_err();
    match e {
        MalformedPointError::NotANumber { token } => assert_eq!(token, "x"),
        MalformedPointError::NotAPair { .. } => panic!("wrong error kind"),
    }
}

#[test]
fn second_token_is_checked() {
    let e = parse(&vec!["0.1,zzz".to_string()], &vec![]).unwrap_err();
    match e {
        MalformedPointError::NotANumber { token } => assert_eq!(token, "zzz"),
        MalformedPointError::NotAPair { .. } => panic!("wrong error kind"),
    }
}

#[test]
fn decimal_number_grammar_accepts() {
    for tok in ["0", "12", "0.4", "1.", ".5", "+.5", "-0.5", "1e5", "1e-3", "3.25E+2", "007"] {
        assert!(check_decimal_number(tok), "{tok} should be accepted");
        // Everything the grammar accepts is a parseable float.
        assert!(tok.parse::<f64>().is_ok(), "{tok} should parse");
    }
}

#[test]
fn decimal_number_grammar_rejects() {
    for tok in ["", ".", "+", "-", "1e", "1e+", "--1", "1.2.3", ".e5", "4x", " 1", "1 "] {
        assert!(!check_decimal_number(tok), "{tok} should be rejected");
    }
}

#[test]
fn error_messages_name_the_offending_text() {
    let e = parse(&vec!["0.4".to_string()], &vec![]).unwrap_err();
    assert_eq!(e.message(), "expected format for points is \"x,y\", got: 0.4");
    let e = parse(&vec!["a,0.2".to_string()], &vec![]).unwrap_err();
    assert_eq!(e.message(), "point coordinate is not a decimal number: a");
}

#[test]
fn exponent_value_round_trips() {
    let r = parse(&vec!["1e-3,2.5E2".to_string()], &vec![]).unwrap();
    assert_eq!(r[0].x.parse::<f64>().unwrap(), 0.001);
    assert_eq!(r[0].y.parse::<f64>().unwrap(), 250.0);
}
