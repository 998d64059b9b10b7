use solc_ast::AstError;
use solc_ast::SourceLocation;

fn loc(start: usize, length: Option<usize>, index: Option<usize>) -> SourceLocation {
    SourceLocation { start, length, index }
}

#[test]
fn parses_full_triple() {
    let r = SourceLocation::from_str("1234:56:0").unwrap();
    assert_eq!(r, loc(1234, Some(56), Some(0)));
}

#[test]
fn parses_negative_sentinels_to_absence() {
    let r = SourceLocation::from_str("10:-1:-1").unwrap();
    assert_eq!(r, loc(10, None, None));
    assert_eq!(r.format(), "10:-1:-1");
}

#[test]
fn any_negative_means_absence() {
    let r = SourceLocation::from_str("7:-5:-99").unwrap();
    assert_eq!(r, loc(7, None, None));
    assert_eq!(r.format(), "7:-1:-1");
}

#[test]
fn formats_full_triple() {
    assert_eq!(loc(1234, Some(56), Some(0)).format(), "1234:56:0");
    assert_eq!(loc(0, Some(0), Some(0)).format(), "0:0:0");
}

#[test]
fn round_trips_through_text() {
    for s in ["0:0:0", "1:2:3", "98765:-1:4", "10:-1:-1", "3:7:-1"] {
        let parsed = SourceLocation::from_str(s).unwrap();
        assert_eq!(parsed.format(), s);
    }
}

#[test]
fn round_trips_through_value() {
    for v in [
        loc(0, None, None),
        loc(1, Some(0), None),
        loc(42, Some(7), Some(3)),
        loc(usize::MAX, None, Some(1)),
    ] {
        let back = SourceLocation::from_str(&v.format()).unwrap();
        assert_eq!(back, v);
    }
}

#[test]
fn rejects_malformed_text() {
    for s in ["", "abc", "1:2", "1:2:3:4", ":", "::", "1:2:x", "-1:2:3", "1.5:2:3", "1:2:"] {
        match SourceLocation::from_str(s) {
            Err(AstError::MalformedLocation(t)) => assert_eq!(t, s),
            other => panic!("expected a malformed-location error for {:?}, got {:?}", s, other),
        }
    }
}

#[test]
fn accepts_explicit_plus_signs() {
    let r = SourceLocation::from_str("+5:+2:3").unwrap();
    assert_eq!(r, loc(5, Some(2), Some(3)));
    assert_eq!(r.format(), "5:2:3");
}

#[test]
fn rejects_overflowing_start() {
    assert!(SourceLocation::from_str("18446744073709551616:0:0").is_err());
    assert!(SourceLocation::from_str("18446744073709551615:0:0").is_ok());
}
