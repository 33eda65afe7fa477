use std::str::FromStr;

use rifven::Error;
use rifven::Kind;
use rifven::Rif;

#[test]
fn formats_in_canonical_nine_digit_form() {
    let rif = Rif::new(Kind::Legal, 07013380, 5).unwrap();
    assert_eq!(rif.to_rif_string(), String::from("J-007013380-5"));

    let rif = Rif::new(Kind::Government, 20000044, 9).unwrap();
    assert_eq!(rif.to_rif_string(), String::from("G-020000044-9"));
}

#[test]
fn formatting_then_parsing_round_trips() {
    let candidates = vec![
        Rif::new(Kind::Legal, 19361, 4).unwrap(),
        Rif::new(Kind::Legal, 07013380, 5).unwrap(),
        Rif::new(Kind::Government, 20000002, 3).unwrap(),
        Rif::new(Kind::Venezuelan, 0, Rif::calc_checksum_digit(&Kind::Venezuelan, 0)).unwrap(),
        Rif::new(
            Kind::Passport,
            999999999,
            Rif::calc_checksum_digit(&Kind::Passport, 999999999),
        )
        .unwrap(),
    ];

    for rif in candidates.into_iter() {
        let text = rif.to_rif_string();
        assert_eq!(rif, Rif::from_str(&text).unwrap());
    }
}

#[test]
fn boundary_payer_ids_have_a_single_check_digit() {
    for kind in vec![
        Kind::Township,
        Kind::Foreigner,
        Kind::Government,
        Kind::Legal,
        Kind::Passport,
        Kind::Venezuelan,
    ] {
        let low = Rif::calc_checksum_digit(&kind, 0);
        let high = Rif::calc_checksum_digit(&kind, 999999999);
        assert!(low <= 9);
        assert!(high <= 9);
        assert!(Rif::new(kind, 0, low).is_ok());
        assert!(Rif::new(kind, 999999999, high).is_ok());
    }
}

#[test]
fn parsing_is_pure() {
    assert_eq!(Rif::from_str("J-07013380-5"), Rif::from_str("J-07013380-5"));
    assert_eq!(Rif::from_str("J-00018461-4"), Rif::from_str("J-00018461-4"));
    assert_eq!(Rif::from_str("G200000040"), Rif::from_str("G200000040"));
}

#[test]
fn kind_codes_parse_case_insensitively_in_full_strings() {
    assert_eq!(
        Rif::from_str("j-07013380-5").unwrap(),
        Rif::from_str("J-07013380-5").unwrap(),
    );
}

#[test]
fn rejects_a_non_numeric_check_digit_segment() {
    let err = Rif::from_str("J-07013380-X").unwrap_err();
    assert_eq!(err, Error::InvalidCheckNum(String::from("X")));

    let err = Rif::from_str("J-07013380-").unwrap_err();
    assert_eq!(err, Error::InvalidCheckNum(String::from("")));

    let err = Rif::from_str("J-07013380-256").unwrap_err();
    assert_eq!(err, Error::InvalidCheckNum(String::from("256")));
}

#[test]
fn a_check_digit_above_nine_fails_the_comparison() {
    let err = Rif::from_str("J-07013380-55").unwrap_err();
    assert_eq!(err, Error::UnexpectedCheckNum(5, 55));
}

#[test]
fn rejects_an_empty_payer_id_segment() {
    let err = Rif::from_str("J--5").unwrap_err();
    assert_eq!(
        err,
        Error::InvalidRifIdentifier(String::from("cannot parse integer from empty string")),
    );
}

#[test]
fn rejects_an_overflowing_payer_id_segment() {
    let err = Rif::from_str("V-4294967296-1").unwrap_err();
    assert_eq!(
        err,
        Error::InvalidRifIdentifier(String::from("number too large to fit in target type")),
    );
}

#[test]
fn rejects_too_many_segments() {
    let err = Rif::from_str("J-070-13380-5").unwrap_err();
    assert_eq!(
        err,
        Error::InvalidRif(String::from(
            "RIF must be splitted into 3 parts separated by dashes. Eg. J-123456789-1. Provided J-070-13380-5",
        )),
    );
}

#[test]
fn accepts_a_leading_plus_as_std_integer_parsing_does() {
    assert_eq!(
        Rif::from_str("J-+07013380-5").unwrap(),
        Rif::new(Kind::Legal, 07013380, 5).unwrap(),
    );
    assert_eq!(
        Rif::from_str("J-07013380-+5").unwrap(),
        Rif::new(Kind::Legal, 07013380, 5).unwrap(),
    );
}

#[test]
fn checksum_digit_stays_in_digit_range() {
    for kind in vec![Kind::Legal, Kind::Government, Kind::Venezuelan] {
        for identifier in vec![0, 1, 19361, 7013380, 123456789, 999999999, 4294967295] {
            assert!(Rif::calc_checksum_digit(&kind, identifier) <= 9);
        }
    }
}
