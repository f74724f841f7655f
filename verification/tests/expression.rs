use slice::Slice;

#[test]
fn slice_from_string_empty() {
    assert!(Slice::from_string("").is_err());
}

#[test]
fn slice_from_string_letters() {
    assert!(Slice::from_string("abc").is_err());
}

#[test]
fn slice_from_string_single_number() {
    assert!(Slice::from_string("1").is_err());
}

#[test]
fn slice_from_string_two_numbers_colon() {
    assert!(Slice::from_string("1:2:").is_err());
}

#[test]
fn slice_from_string_colon_two_numbers() {
    assert!(Slice::from_string(":1:2").is_err());
}

#[test]
fn slice_from_string_invalid_begin() {
    assert!(Slice::from_string("a:2").is_err());
}

#[test]
fn slice_from_string_invalid_end() {
    assert!(Slice::from_string("1:b").is_err());
}

#[test]
fn slice_from_string_colon_three_numbers() {
    assert!(Slice::from_string("1:2:3").is_err());
}

#[test]
fn slice_from_string_colon() {
    assert!(Slice::from_string(":").is_err());
}

#[test]
fn slice_from_string_two_numbers() {
    assert_eq!(Slice::from_string("1:2"), Ok(Slice { begin: 1, end: Some(2) }));
}

#[test]
fn slice_from_string_number_colon() {
    assert_eq!(Slice::from_string("1:"), Ok(Slice { begin: 1, end: None }));
}

#[test]
fn slice_from_string_colon_number() {
    assert_eq!(Slice::from_string(":1"), Ok(Slice { begin: 0, end: Some(1) }));
}

#[test]
fn slice_from_string_negative_number() {
    assert_eq!(Slice::from_string("-1:2"), Ok(Slice { begin: -1, end: Some(2) }));
}

#[test]
fn slice_from_string_number_negative() {
    assert_eq!(Slice::from_string("1:-2"), Ok(Slice { begin: 1, end: Some(-2) }));
}

#[test]
fn slice_from_string_two_negatives() {
    assert_eq!(Slice::from_string("-1:-2"), Ok(Slice { begin: -1, end: Some(-2) }));
}

#[test]
fn slice_display() {
    assert_eq!(Slice { begin: 1, end: Some(2) }.to_string(), "[1:2]");
}

#[test]
fn slice_display_end_none() {
    assert_eq!(Slice { begin: 1, end: None }.to_string(), "[1:]");
}

#[test]
fn from_string_reports_wrong_number_of_parts() {
    assert_eq!(Slice::from_string(""), Err("Invalid slice"));
    assert_eq!(Slice::from_string("12"), Err("Invalid slice"));
    assert_eq!(Slice::from_string("1:2:3"), Err("Invalid slice"));
    assert_eq!(Slice::from_string("::"), Err("Invalid slice"));
    assert_eq!(Slice::from_string("a:b:c"), Err("Invalid slice"));
}

#[test]
fn from_string_reports_two_empty_parts() {
    assert_eq!(Slice::from_string(":"), Err("Slice cannot be empty"));
}

#[test]
fn from_string_reports_bad_begin() {
    assert_eq!(Slice::from_string("a:2"), Err("Invalid slice starting point"));
    assert_eq!(Slice::from_string("a:"), Err("Invalid slice starting point"));
    assert_eq!(Slice::from_string("-:2"), Err("Invalid slice starting point"));
    assert_eq!(Slice::from_string("1 :2"), Err("Invalid slice starting point"));
    assert_eq!(Slice::from_string("--1:2"), Err("Invalid slice starting point"));
    assert_eq!(Slice::from_string("1.5:2"), Err("Invalid slice starting point"));
    assert_eq!(Slice::from_string("\u{661}:2"), Err("Invalid slice starting point"));
}

#[test]
fn from_string_reports_bad_end() {
    assert_eq!(Slice::from_string("1:b"), Err("Invalid slice ending point"));
    assert_eq!(Slice::from_string(":b"), Err("Invalid slice ending point"));
    assert_eq!(Slice::from_string("1:-"), Err("Invalid slice ending point"));
    assert_eq!(Slice::from_string("1:2 "), Err("Invalid slice ending point"));
    assert_eq!(Slice::from_string("1:0x10"), Err("Invalid slice ending point"));
}

#[test]
fn from_string_reports_begin_before_end() {
    assert_eq!(Slice::from_string("a:b"), Err("Invalid slice starting point"));
}

#[test]
fn from_string_takes_a_minus_sign_only() {
    assert_eq!(Slice::from_string("+1:2"), Err("Invalid slice starting point"));
    assert_eq!(Slice::from_string("1:+2"), Err("Invalid slice ending point"));
}

#[test]
fn from_string_reads_zeros() {
    assert_eq!(Slice::from_string("0:0"), Ok(Slice { begin: 0, end: Some(0) }));
    assert_eq!(Slice::from_string("-0:-0"), Ok(Slice { begin: 0, end: Some(0) }));
    assert_eq!(Slice::from_string("007:0010"), Ok(Slice { begin: 7, end: Some(10) }));
    assert_eq!(
        Slice::from_string("0000000000000000000000000000000000000012:"),
        Ok(Slice { begin: 12, end: None })
    );
}

#[test]
fn from_string_reads_the_whole_range() {
    let least = format!("{}:{}", isize::MIN, isize::MAX);
    assert_eq!(
        Slice::from_string(&least),
        Ok(Slice { begin: isize::MIN, end: Some(isize::MAX) })
    );
    let greatest = format!("{}:{}", isize::MAX, isize::MIN);
    assert_eq!(
        Slice::from_string(&greatest),
        Ok(Slice { begin: isize::MAX, end: Some(isize::MIN) })
    );
}

#[test]
fn from_string_rejects_what_does_not_fit() {
    let above = format!("{}:", isize::MAX as i128 + 1);
    assert_eq!(Slice::from_string(&above), Err("Invalid slice starting point"));
    let below = format!(":{}", isize::MIN as i128 - 1);
    assert_eq!(Slice::from_string(&below), Err("Invalid slice ending point"));
    assert_eq!(
        Slice::from_string("99999999999999999999999999999999999999999:1"),
        Err("Invalid slice starting point")
    );
    assert_eq!(
        Slice::from_string("1:-99999999999999999999999999999999999999999"),
        Err("Invalid slice ending point")
    );
    assert_eq!(
        Slice::from_string("99999999999999999999999999999999999999999x:1"),
        Err("Invalid slice starting point")
    );
}

#[test]
fn to_string_writes_signs_and_digits() {
    assert_eq!(Slice { begin: 0, end: None }.to_string(), "[0:]");
    assert_eq!(Slice { begin: -1, end: Some(-2) }.to_string(), "[-1:-2]");
    assert_eq!(Slice { begin: 10, end: Some(0) }.to_string(), "[10:0]");
    assert_eq!(Slice { begin: 1203, end: Some(-4050) }.to_string(), "[1203:-4050]");
    assert_eq!(
        Slice { begin: isize::MIN, end: Some(isize::MAX) }.to_string(),
        format!("[{}:{}]", isize::MIN, isize::MAX)
    );
}

#[test]
fn expression_is_read_back() {
    let slices = [
        Slice { begin: 0, end: None },
        Slice { begin: 5, end: Some(-3) },
        Slice { begin: -12, end: Some(40) },
        Slice { begin: isize::MIN, end: Some(isize::MIN) },
        Slice { begin: isize::MAX, end: None },
    ];
    for slice in slices.iter() {
        let shown = slice.to_string();
        let expression = &shown[1..shown.len() - 1];
        assert_eq!(Slice::from_string(expression), Ok(*slice));
    }
}

#[test]
fn malformed_expression_is_a_parse_failure() {
    assert_eq!(Slice::from_string("1:2:3"), Err("Invalid slice"));
}
