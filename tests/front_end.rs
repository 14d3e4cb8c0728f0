use password_checker::breach::CheckError;
use password_checker::checker::{Checker, Command, Message};
use password_checker::strength::StrengthError;

#[test]
fn new_checker_is_unchecked() {
    let c = Checker::new();
    assert_eq!(c.password, "");
    assert_eq!(c.strength, Err(StrengthError::NotScored));
    assert_eq!(c.leak, Err(CheckError::NotChecked));
    assert_eq!(c.title(), "Password Checker 2000");
}

#[test]
fn typing_scores_and_resets_the_count() {
    let mut c = Checker::new();
    c.leak = Ok(5);
    let cmd = c.update(Message::PasswordChanged("password".to_string()));
    assert!(matches!(cmd, Command::Nothing));
    assert_eq!(c.password, "password");
    assert_eq!(c.leak, Err(CheckError::NotChecked));
    let s = c.strength.clone().unwrap();
    assert_eq!(s.score, 0);
    assert!(s.feedback.is_some());
}

#[test]
fn strong_password_scores_high() {
    let mut c = Checker::new();
    c.update(Message::PasswordChanged("Tr0ub4dour&3-correct-horse-Battery!staple".to_string()));
    let s = c.strength.clone().unwrap();
    assert!(s.score >= 3 && s.score <= 4);
}

#[test]
fn blank_password_is_not_scored() {
    let mut c = Checker::new();
    c.update(Message::PasswordChanged("x".to_string()));
    c.update(Message::PasswordChanged(String::new()));
    assert_eq!(c.strength, Err(StrengthError::BlankPassword));
}

#[test]
fn check_request_asks_for_lookup() {
    let mut c = Checker::new();
    c.update(Message::PasswordChanged("password".to_string()));
    let before = c.strength.clone();
    match c.update(Message::CheckDatabase) {
        Command::Lookup(q) => {
            assert_eq!(q.prefix, "5BAA6");
            assert_eq!(q.suffix, "1E4C9B93F3F0682250B6CF8331B7EE68FD8");
        }
        Command::Nothing => panic!("no lookup asked"),
    }
    assert_eq!(c.leak, Err(CheckError::Checking));
    assert_eq!(c.password, "password");
    assert_eq!(c.strength, before);
}

#[test]
fn latest_result_is_kept() {
    let mut c = Checker::new();
    c.update(Message::PasswordChanged("password".to_string()));
    c.update(Message::CheckDatabase);
    c.update(Message::ResultFetched(Ok(3)));
    assert_eq!(c.leak, Ok(3));
    let cmd = c.update(Message::ResultFetched(Err(CheckError::HttpStatus(500))));
    assert!(matches!(cmd, Command::Nothing));
    assert_eq!(c.leak, Err(CheckError::HttpStatus(500)));
    assert_eq!(c.password, "password");
}
