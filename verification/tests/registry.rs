use decentralized_freelance_backend::error::CanisterError;
use decentralized_freelance_backend::user::UserRegistry;

#[test]
fn register_new_id_succeeds() {
    let mut reg = UserRegistry::new();
    assert!(reg.register_user("alice".to_string()).is_ok());
}

#[test]
fn register_duplicate_id_fails() {
    let mut reg = UserRegistry::new();
    assert!(reg.register_user("alice".to_string()).is_ok());
    let second = reg.register_user("alice".to_string());
    assert!(matches!(second, Err(CanisterError::UserAlreadyExists)));
}

#[test]
fn register_distinct_ids_both_succeed() {
    let mut reg = UserRegistry::new();
    assert!(reg.register_user("alice".to_string()).is_ok());
    assert!(reg.register_user("bob".to_string()).is_ok());
}

#[test]
fn register_after_rejection_keeps_other_ids_free() {
    let mut reg = UserRegistry::new();
    assert!(reg.register_user("alice".to_string()).is_ok());
    assert!(matches!(
        reg.register_user("alice".to_string()),
        Err(CanisterError::UserAlreadyExists)
    ));
    assert!(reg.register_user("carol".to_string()).is_ok());
}

#[test]
fn register_empty_id_is_accepted() {
    let mut reg = UserRegistry::new();
    assert!(reg.register_user(String::new()).is_ok());
    assert!(matches!(
        reg.register_user(String::new()),
        Err(CanisterError::UserAlreadyExists)
    ));
}

#[test]
fn error_messages() {
    assert_eq!(CanisterError::UserAlreadyExists.message(), "User already exists");
    assert_eq!(CanisterError::JobNotFound.message(), "Job not found");
    assert_eq!(CanisterError::Other("overloaded".to_string()).message(), "overloaded");
}
