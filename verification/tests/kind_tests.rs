use std::str::FromStr;

use rifven::Kind;

#[test]
fn creates_a_kind_instance_from_str() {
    let kinds = vec![
        Kind::Foreigner,
        Kind::Government,
        Kind::Legal,
        Kind::Passport,
        Kind::Township,
        Kind::Venezuelan,
    ];

    let str_value = vec!["e", "g", "j", "p", "c", "v"];

    for (idx, kind_str) in str_value.into_iter().enumerate() {
        assert_eq!(kinds[idx], Kind::from_str(kind_str).unwrap());
    }
}

#[test]
fn creates_a_string_from_a_kind() {
    let kinds = vec![
        Kind::Township,
        Kind::Foreigner,
        Kind::Government,
        Kind::Legal,
        Kind::Passport,
        Kind::Venezuelan,
    ];

    let string_value = vec![
        String::from("C"),
        String::from("E"),
        String::from("G"),
        String::from("J"),
        String::from("P"),
        String::from("V"),
    ];

    for (idx, kind) in kinds.into_iter().enumerate() {
        assert_eq!(string_value[idx], kind.to_code());
    }
}

#[test]
fn uppercase_codes_parse_too() {
    let codes = vec!["C", "E", "G", "J", "P", "V"];
    let kinds = vec![
        Kind::Township,
        Kind::Foreigner,
        Kind::Government,
        Kind::Legal,
        Kind::Passport,
        Kind::Venezuelan,
    ];

    for (idx, code) in codes.into_iter().enumerate() {
        assert_eq!(kinds[idx], Kind::parse(code).unwrap());
    }
}

#[test]
fn code_round_trips_through_parse() {
    let kinds = vec![
        Kind::Township,
        Kind::Foreigner,
        Kind::Government,
        Kind::Legal,
        Kind::Passport,
        Kind::Venezuelan,
    ];

    for kind in kinds.into_iter() {
        let code = kind.to_code();
        assert_eq!(kind, Kind::parse(&code).unwrap());
        assert_eq!(kind, Kind::parse(&code.to_lowercase()).unwrap());
        assert_eq!(code, code.to_uppercase());
    }
}

#[test]
fn rejects_unknown_codes() {
    for bad in vec!["m", "M", "X", "", "JJ", "5", " j", "j "] {
        let err = Kind::parse(bad).unwrap_err();
        assert_eq!(err, rifven::Error::InvalidRifKind(String::from(bad)));
    }
}

#[test]
fn kind_weights_are_fixed() {
    assert_eq!(Kind::Venezuelan.checksum_digit(), 1);
    assert_eq!(Kind::Foreigner.checksum_digit(), 2);
    assert_eq!(Kind::Legal.checksum_digit(), 3);
    assert_eq!(Kind::Township.checksum_digit(), 3);
    assert_eq!(Kind::Passport.checksum_digit(), 4);
    assert_eq!(Kind::Government.checksum_digit(), 5);
}
