use passprompt::error::PasspromptError;

#[test]
fn messages_name_what_went_wrong() {
    assert_eq!(PasspromptError::NoPasswordsDefined.message(), "no passwords defined");
    assert_eq!(
        PasspromptError::IllegalByteArrayLength { expected: 16, actual: 3 }.message(),
        "improper length: expected 16, got 3"
    );
    assert_eq!(
        PasspromptError::UnparseableWaitFormat("soon".to_string()).message(),
        "could not parse wait format 'soon'"
    );
    assert_eq!(
        PasspromptError::UnknownConfigOption("colour".to_string()).message(),
        "unknown configuration option 'colour'"
    );
    assert_eq!(PasspromptError::EmptyPassword.message(), "password is empty");
    assert_eq!(
        PasspromptError::IllegalArgument { name: "count".to_string(), value: "many".to_string() }
            .message(),
        "illegal value for argument 'count': many"
    );
    assert_eq!(
        PasspromptError::UnknownName("bank".to_string()).message(),
        "no password named bank"
    );
    assert_eq!(
        PasspromptError::PasswordTooLong { limit: 72, actual: 100 }.message(),
        "password is too long: at most 72 bytes, got 100"
    );
    assert_eq!(
        PasspromptError::InvalidSaltEncoding.message(),
        "salt is not the base64 text of 16 bytes"
    );
    assert_eq!(
        PasspromptError::InvalidHashEncoding.message(),
        "hash is not the base64 text of 24 bytes"
    );
}
