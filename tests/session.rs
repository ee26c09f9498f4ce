use boplats::rental::BoplatsError;
use boplats::session::{get_session_id, SessionSource};

#[test]
fn blank_argument_is_a_config_error() {
    assert_eq!(get_session_id(SessionSource::Argument(String::new())), Err(BoplatsError::Config));
    assert_eq!(
        get_session_id(SessionSource::Argument(String::from(" \t\n\u{a0}"))),
        Err(BoplatsError::Config)
    );
}

#[test]
fn argument_is_kept_as_given() {
    assert_eq!(
        get_session_id(SessionSource::Argument(String::from(" tok "))),
        Ok(String::from(" tok "))
    );
}

#[test]
fn typed_credential_is_trimmed() {
    assert_eq!(
        get_session_id(SessionSource::Typed(String::from("  a b\u{3000}\r\n"))),
        Ok(String::from("a b"))
    );
    assert_eq!(get_session_id(SessionSource::Typed(String::from("\n"))), Err(BoplatsError::Config));
    assert_eq!(get_session_id(SessionSource::Typed(String::from("x"))), Ok(String::from("x")));
}
