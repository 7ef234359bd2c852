use mjai_reviewer::kyoku_filter::{KyokuFilter, ParseError};
use mjai_reviewer::num::IntErrorKind;

#[test]
fn filter() {
    let kf: KyokuFilter = "E1,E4,S3.1".parse().unwrap();
    assert!(kf.test(0, 0));
    assert!(!kf.test(0, 1));
    assert!(!kf.test(6, 0));
    assert!(kf.test(6, 1));

    let kf: KyokuFilter = "e3.11".parse().unwrap();
    assert!(!kf.test(2, 10));
    assert!(kf.test(2, 11));

    "e9".parse::<KyokuFilter>().unwrap_err();
    "w0".parse::<KyokuFilter>().unwrap_err();
    "".parse::<KyokuFilter>().unwrap_err();
}

#[test]
fn filter_admits_only_named_entries() {
    let kf = KyokuFilter::parse("E2.1,E3,n4.2").unwrap();
    for kyoku in 0u8..20 {
        for honba in 0u8..4 {
            let named = (kyoku == 1 && honba == 1) || (kyoku == 2 && honba == 0) || (kyoku == 15 && honba == 2);
            assert_eq!(kf.test(kyoku, honba), named, "kyoku {kyoku} honba {honba}");
        }
    }
}

#[test]
fn filter_errors() {
    assert!(matches!(KyokuFilter::parse(""), Err(ParseError::MissingBakaze)));
    assert!(matches!(KyokuFilter::parse("E1,"), Err(ParseError::MissingBakaze)));
    assert!(matches!(KyokuFilter::parse("E"), Err(ParseError::MissingKyoku)));
    match KyokuFilter::parse("x1") {
        Err(ParseError::InvalidBakaze(s)) => assert_eq!(s, "X"),
        other => panic!("unexpected {other:?}"),
    }
    assert!(matches!(
        KyokuFilter::parse("Ea"),
        Err(ParseError::InvalidKyoku(IntErrorKind::InvalidDigit))
    ));
    assert!(matches!(KyokuFilter::parse("e9"), Err(ParseError::InvalidKyokuRange(9))));
    assert!(matches!(KyokuFilter::parse("w0"), Err(ParseError::InvalidKyokuRange(0))));
    assert!(matches!(
        KyokuFilter::parse("S1.300"),
        Err(ParseError::InvalidHonba(IntErrorKind::PosOverflow))
    ));
    assert!(matches!(
        KyokuFilter::parse("S1."),
        Err(ParseError::InvalidHonba(IntErrorKind::Empty))
    ));
}

#[test]
fn filter_without_dot_reads_no_honba() {
    let kf = KyokuFilter::parse("W2x").unwrap();
    assert!(kf.test(9, 0));
    assert!(!kf.test(9, 1));
}
