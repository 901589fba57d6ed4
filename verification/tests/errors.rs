use glacier::error::{ErrInfo, GlacierError, Kind};

#[test]
fn error_with_a_description() {
    let err = GlacierError::new(Kind::InServer, "no room");
    assert_eq!(
        err,
        GlacierError::NotOkErr(ErrInfo { kind: Kind::InServer, description: String::from("no room") })
    );
    assert_eq!(err.kind(), Some(Kind::InServer));
}

#[test]
fn kinds_of_errors() {
    assert_eq!(GlacierError::OkErr(Kind::IOErr).kind(), Some(Kind::IOErr));
    assert_eq!(GlacierError::Option.kind(), None);
    assert_eq!(GlacierError::new(Kind::UTF8Error, "").kind(), Some(Kind::UTF8Error));
}

#[test]
fn end_of_stream_and_timeout_are_routine() {
    assert!(GlacierError::OkErr(Kind::EofErr).is_routine());
    assert!(GlacierError::OkErr(Kind::TimeOutErr).is_routine());
    assert!(GlacierError::new(Kind::TimeOutErr, "ten seconds").is_routine());
    assert!(!GlacierError::OkErr(Kind::IOErr).is_routine());
    assert!(!GlacierError::OkErr(Kind::InRequest).is_routine());
    assert!(!GlacierError::OkErr(Kind::InServer).is_routine());
    assert!(!GlacierError::OkErr(Kind::UTF8Error).is_routine());
    assert!(!GlacierError::Option.is_routine());
}

#[test]
fn errors_print_their_kind() {
    let text = format!("{:?}", GlacierError::new(Kind::InRequest, "bad line"));
    assert!(text.contains("InRequest"));
    assert!(text.contains("bad line"));
    assert_eq!(format!("{:?}", GlacierError::Option), "Option");
}
