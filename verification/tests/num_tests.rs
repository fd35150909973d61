use silksongtool::num::dec_u64;
use silksongtool::num::number_as_i64;
use silksongtool::num::number_parts;
use silksongtool::num::pad2_u64;
use silksongtool::num::Frac;
use silksongtool::num::NumberParts;

#[test]
fn integer_literals_read_as_i64() {
    assert_eq!(number_as_i64("0"), Some(0));
    assert_eq!(number_as_i64("42"), Some(42));
    assert_eq!(number_as_i64("-5"), Some(-5));
    assert_eq!(number_as_i64("9223372036854775807"), Some(i64::MAX));
    assert_eq!(number_as_i64("-9223372036854775808"), Some(i64::MIN));
}

#[test]
fn non_integer_literals_read_as_none() {
    assert_eq!(number_as_i64("9223372036854775808"), None);
    assert_eq!(number_as_i64("-9223372036854775809"), None);
    assert_eq!(number_as_i64("5.0"), None);
    assert_eq!(number_as_i64("1e3"), None);
    assert_eq!(number_as_i64(""), None);
    assert_eq!(number_as_i64("-"), None);
    assert_eq!(number_as_i64("abc"), None);
    assert_eq!(number_as_i64("5 "), None);
}

#[test]
fn parts_split_whole_and_fraction() {
    assert_eq!(
        number_parts("7325.5"),
        NumberParts { neg: false, whole: 7325, frac: Frac::Half },
    );
    assert_eq!(
        number_parts("0.49"),
        NumberParts { neg: false, whole: 0, frac: Frac::BelowHalf },
    );
    assert_eq!(
        number_parts("2.51"),
        NumberParts { neg: false, whole: 2, frac: Frac::AboveHalf },
    );
    assert_eq!(
        number_parts("-3.25"),
        NumberParts { neg: true, whole: 3, frac: Frac::BelowHalf },
    );
    assert_eq!(number_parts("60"), NumberParts { neg: false, whole: 60, frac: Frac::Zero });
    assert_eq!(number_parts("60.000"), NumberParts { neg: false, whole: 60, frac: Frac::Zero });
}

#[test]
fn parts_apply_exponents() {
    assert_eq!(number_parts("1.5e2"), NumberParts { neg: false, whole: 150, frac: Frac::Zero });
    assert_eq!(number_parts("15e-1"), NumberParts { neg: false, whole: 1, frac: Frac::Half });
    assert_eq!(
        number_parts("1e-20"),
        NumberParts { neg: false, whole: 0, frac: Frac::BelowHalf },
    );
    // Ten to the twentieth exceeds u64::MAX, so the whole part saturates.
    assert_eq!(
        number_parts("1e20"),
        NumberParts { neg: false, whole: u64::MAX, frac: Frac::Zero },
    );
}

#[test]
fn malformed_literals_read_as_zero() {
    let zero = NumberParts { neg: false, whole: 0, frac: Frac::Zero };
    assert_eq!(number_parts(""), zero);
    assert_eq!(number_parts("-"), zero);
    assert_eq!(number_parts("."), zero);
    assert_eq!(number_parts("1."), zero);
    assert_eq!(number_parts("1e"), zero);
    assert_eq!(number_parts("1e+"), zero);
    assert_eq!(number_parts("half past nine"), zero);
}

#[test]
fn decimal_rendering_matches() {
    assert_eq!(dec_u64(0), "0");
    assert_eq!(dec_u64(7), "7");
    assert_eq!(dec_u64(12345), "12345");
    assert_eq!(dec_u64(u64::MAX), "18446744073709551615");
    assert_eq!(pad2_u64(0), "00");
    assert_eq!(pad2_u64(7), "07");
    assert_eq!(pad2_u64(42), "42");
    assert_eq!(pad2_u64(123), "123");
}
