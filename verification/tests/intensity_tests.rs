use taiwan_eq_map::intensity::{classify_intensity, IntensityConversionErrors};

#[test]
fn plain_digit_classifies() {
    assert!(matches!(classify_intensity("5"), Ok(5)));
}

#[test]
fn stray_characters_are_stripped() {
    // A unit marker around a single digit still reads as that class.
    assert!(matches!(classify_intensity("5 gal"), Ok(5)));
    assert!(matches!(classify_intensity("x7x"), Ok(7)));
}

#[test]
fn stripping_is_idempotent_on_examples() {
    let once = match classify_intensity("3 gal") {
        Ok(v) => v,
        Err(_) => panic!("expected a class"),
    };
    // Classifying the already-stripped digits gives the same class.
    assert!(matches!(classify_intensity("3"), Ok(v) if v == once));
}

#[test]
fn nine_is_out_of_range() {
    assert!(matches!(
        classify_intensity("9"),
        Err(IntensityConversionErrors::OutOfBounds(9))
    ));
}

#[test]
fn zero_is_out_of_range() {
    assert!(matches!(
        classify_intensity("0"),
        Err(IntensityConversionErrors::OutOfBounds(0))
    ));
}

#[test]
fn no_digits_is_a_parse_failure() {
    assert!(matches!(
        classify_intensity("abc"),
        Err(IntensityConversionErrors::ParseError(_))
    ));
    assert!(matches!(
        classify_intensity(""),
        Err(IntensityConversionErrors::ParseError(_))
    ));
}

#[test]
fn value_past_a_byte_is_a_parse_failure() {
    assert!(matches!(
        classify_intensity("999"),
        Err(IntensityConversionErrors::ParseError(_))
    ));
}
