use argon2::password_hash::{PasswordHasher, SaltString};
use scoop::authentication::{check_password, credentials_outcome};
use scoop::configuration::Environment;
use scoop::errors::{error_chain_fmt, AuthError, SubscribeError};
use scoop::subscriptions::{confirmation_email, confirmation_link, generate_subscription_token};
use scoop::telemetry::{report_exit, TaskExit};

#[test]
fn error_chain_lists_causes() {
    let causes = vec!["db down".to_string(), "socket closed".to_string()];
    assert_eq!(
        error_chain_fmt("Failed to store token", &causes),
        "Failed to store token\n\nCaused by:\n\tdb down\nCaused by:\n\tsocket closed\n"
    );
    assert_eq!(error_chain_fmt("plain", &Vec::new()), "plain\n\n");
}

#[test]
fn subscribe_error_status() {
    assert_eq!(SubscribeError::ValidationError("bad".to_string()).status_code(), 400);
    assert_eq!(SubscribeError::UnexpectedError("boom".to_string()).status_code(), 500);
}

#[test]
fn exit_reports() {
    let r = report_exit("API", TaskExit::Completed);
    assert!(!r.is_error);
    assert_eq!(r.message, "API has exited");
    let r = report_exit("Background Worker", TaskExit::Failed);
    assert!(r.is_error);
    assert_eq!(r.message, "Background Worker failed");
    let r = report_exit("API", TaskExit::Aborted);
    assert!(r.is_error);
    assert_eq!(r.message, "API has failed to complete");
}

#[test]
fn environment_names() {
    assert_eq!(Environment::Local.as_str(), "local");
    assert_eq!(Environment::Production.as_str(), "production");
    assert_eq!(Environment::try_from("LOCAL".to_string()), Ok(Environment::Local));
    assert_eq!(Environment::try_from("Production".to_string()), Ok(Environment::Production));
    assert_eq!(
        Environment::try_from("Staging".to_string()),
        Err("staging is not a supported Environment. Use `local` or `production`.".to_string())
    );
    assert_eq!(Environment::from_lowercase("local".to_string()), Ok(Environment::Local));
    assert!(Environment::from_lowercase("LOCAL".to_string()).is_err());
}

#[test]
fn tokens_are_twenty_five_alphanumerics() {
    let a = generate_subscription_token();
    let b = generate_subscription_token();
    assert_eq!(a.len(), 25);
    assert!(a.chars().all(|c| c.is_ascii_alphanumeric()));
    assert_ne!(a, b);
}

#[test]
fn confirmation_mail_carries_the_link() {
    let link = confirmation_link("http://127.0.0.1:8000", "abc");
    assert_eq!(link, "http://127.0.0.1:8000/subscriptions/confirm?subscription_token=abc");
    let m = confirmation_email("http://127.0.0.1:8000", "abc");
    assert_eq!(m.subject, "Welcome!");
    assert_eq!(
        m.html_body,
        "Welcome to our newsletter!<br/> Click <a href=\"http://127.0.0.1:8000/subscriptions/confirm?subscription_token=abc\">here</a> to confirm your subscription."
    );
    assert_eq!(
        m.text_body,
        "Welcome to our newsletter! \n Visit http://127.0.0.1:8000/subscriptions/confirm?subscription_token=abc to confirm your subscription."
    );
}

#[test]
fn credentials_decisions() {
    assert_eq!(credentials_outcome(Some(5), true, true), Ok(5));
    assert_eq!(
        credentials_outcome(None, true, true),
        Err(AuthError::InvalidCredentials("Unknown username".to_string()))
    );
    assert_eq!(
        credentials_outcome(Some(5), false, true),
        Err(AuthError::UnexpectedError("Failed to parse hash in PHC string format.".to_string()))
    );
    assert_eq!(
        credentials_outcome(Some(5), true, false),
        Err(AuthError::InvalidCredentials("Invalid password.".to_string()))
    );
}

#[test]
fn passwords_are_checked_against_argon2_hashes() {
    let salt = SaltString::from_b64("c29tZXNhbHRzb21lc2FsdA").unwrap();
    let phc = argon2::Argon2::default()
        .hash_password(b"everything-is-fine", &salt)
        .unwrap()
        .to_string();
    assert_eq!(check_password(Some((11, phc.clone())), "everything-is-fine"), Ok(11));
    assert_eq!(
        check_password(Some((11, phc)), "wrong-password"),
        Err(AuthError::InvalidCredentials("Invalid password.".to_string()))
    );
    assert_eq!(
        check_password(Some((11, "not-a-hash".to_string())), "x"),
        Err(AuthError::UnexpectedError("Failed to parse hash in PHC string format.".to_string()))
    );
    assert_eq!(
        check_password(None, "x"),
        Err(AuthError::InvalidCredentials("Unknown username".to_string()))
    );
}
