use novapay::{CreateUser, LoginUser, UpdateUserProfile};

fn user(email: &str, password: &str, name: &str) -> CreateUser {
    CreateUser {
        email: email.to_string(),
        password: password.to_string(),
        full_name: name.to_string(),
        phone_number: None,
    }
}

#[test]
fn registration_rules() {
    assert!(user("amina@example.com", "secret1", "Amina").validate());
    assert!(!user("amina.example.com", "secret1", "Amina").validate());
    assert!(!user("amina@example.com", "short", "Amina").validate());
    assert!(!user("amina@example.com", "secret1", "A").validate());
    assert!(user("amina@example.com", "åäöåäö", "Ås").validate());
}

#[test]
fn login_needs_email() {
    let ok = LoginUser { email: "x@example.org".to_string(), password: String::new() };
    let bad = LoginUser { email: "not an email".to_string(), password: "pw".to_string() };
    assert!(ok.validate());
    assert!(!bad.validate());
}

#[test]
fn profile_name_length() {
    let none = UpdateUserProfile { full_name: None, phone_number: Some("0700".to_string()) };
    let short = UpdateUserProfile { full_name: Some("Z".to_string()), phone_number: None };
    let fine = UpdateUserProfile { full_name: Some("Zoe".to_string()), phone_number: None };
    assert!(none.validate());
    assert!(!short.validate());
    assert!(fine.validate());
}

#[test]
fn registration_rules_given_email_verdict() {
    let u = user("anything", "secret1", "Amina");
    assert!(u.validate_with_email(true));
    assert!(!u.validate_with_email(false));
    assert!(!user("a@b.co", "12345", "Amina").validate_with_email(true));
    assert!(!user("a@b.co", "123456", "A").validate_with_email(true));
}
