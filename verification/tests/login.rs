use mini_greeter::login::{
    attempt_login, Event, LoginAction, LoginAttempt, LoginOutcome, Notice,
};
use mini_greeter::protocol::{AuthMessageType, ErrorType, Request, Response};
use mini_greeter::selection::Choice;
use mini_greeter::session::{Session, SessionKind};

fn sway() -> Session {
    Session {
        name: "Sway".to_string(),
        cmd: vec!["sway".to_string(), "-d".to_string()],
        kind: SessionKind::Wayland,
    }
}

fn message(kind: AuthMessageType, text: &str) -> Event {
    Event::Response(Response::AuthMessage {
        auth_message_type: kind,
        auth_message: text.to_string(),
    })
}

fn error(error_type: ErrorType, text: &str) -> Event {
    Event::Response(Response::Error { error_type, description: text.to_string() })
}

fn success() -> Event {
    Event::Response(Response::Success)
}

fn begin(choice: Choice<'_>) -> LoginAttempt<'_> {
    attempt_login("bob", choice).0
}

fn retry_text(action: Option<LoginAction>) -> String {
    match action {
        Some(LoginAction::End { outcome: LoginOutcome::Retry(text), .. }) => text,
        other => panic!("{:?}", other),
    }
}

#[test]
fn a_login_begins_with_the_user_name() {
    let (attempt, action) = attempt_login("bob", Choice::Shell);
    assert!(!attempt.authenticated());
    match action {
        LoginAction::Exchange {
            notice: None,
            request: Request::CreateSession { username },
            scrub: false,
        } => assert_eq!(username, "bob"),
        other => panic!("{:?}", other),
    }
}

#[test]
fn a_secret_question_is_asked_hidden_and_its_answer_scrubbed() {
    let mut attempt = begin(Choice::Shell);
    match attempt.step(message(AuthMessageType::Secret, "Password:")) {
        Some(LoginAction::Ask { prompt, secret: true }) => assert_eq!(prompt, "Password: "),
        other => panic!("{:?}", other),
    }
    match attempt.step(Event::Reply(" pw ".to_string())) {
        Some(LoginAction::Exchange {
            notice: None,
            request: Request::PostAuthMessageResponse { response: Some(text) },
            scrub: true,
        }) => assert_eq!(text, " pw "),
        other => panic!("{:?}", other),
    }
}

#[test]
fn a_visible_question_is_asked_openly() {
    let mut attempt = begin(Choice::Shell);
    match attempt.step(message(AuthMessageType::Visible, "TOTP")) {
        Some(LoginAction::Ask { prompt, secret: false }) => assert_eq!(prompt, "TOTP "),
        other => panic!("{:?}", other),
    }
    match attempt.step(Event::Reply("123456".to_string())) {
        Some(LoginAction::Exchange {
            notice: None,
            request: Request::PostAuthMessageResponse { response: Some(text) },
            scrub: false,
        }) => assert_eq!(text, "123456"),
        other => panic!("{:?}", other),
    }
}

#[test]
fn other_messages_are_shown_and_acknowledged() {
    let mut attempt = begin(Choice::Shell);
    match attempt.step(message(AuthMessageType::Info, "touch the key")) {
        Some(LoginAction::Exchange {
            notice: Some(Notice::Info(text)),
            request: Request::PostAuthMessageResponse { response: None },
            scrub: false,
        }) => assert_eq!(text, "touch the key"),
        other => panic!("{:?}", other),
    }
    match attempt.step(message(AuthMessageType::Error, "wrong key")) {
        Some(LoginAction::Exchange {
            notice: Some(Notice::Error(text)),
            request: Request::PostAuthMessageResponse { response: None },
            scrub: false,
        }) => assert_eq!(text, "wrong key"),
        other => panic!("{:?}", other),
    }
}

#[test]
fn any_number_of_questions_is_relayed() {
    let mut attempt = begin(Choice::Shell);
    for i in 0..5 {
        let text = format!("question {}", i);
        match attempt.step(message(AuthMessageType::Secret, &text)) {
            Some(LoginAction::Ask { prompt, .. }) => assert_eq!(prompt, format!("{} ", text)),
            other => panic!("{:?}", other),
        }
        assert!(attempt.step(Event::Reply(i.to_string())).is_some());
        assert!(!attempt.authenticated());
    }
    assert!(attempt.step(success()).is_some());
    assert!(attempt.authenticated());
}

#[test]
fn the_chosen_session_is_started_once_the_login_is_granted() {
    let session = sway();
    let mut attempt = begin(Choice::Desktop(&session));
    match attempt.step(success()) {
        Some(LoginAction::Exchange {
            notice: None,
            request: Request::StartSession { cmd, env },
            scrub: false,
        }) => {
            assert_eq!(cmd, vec!["sway", "-d"]);
            assert_eq!(env, vec!["XDG_SESSION_TYPE=wayland"]);
        }
        other => panic!("{:?}", other),
    }
    match attempt.step(success()) {
        Some(LoginAction::End { cancel: false, log: None, outcome: LoginOutcome::Started }) => {}
        other => panic!("{:?}", other),
    }
    assert!(attempt.authenticated());
}

#[test]
fn the_login_shell_is_looked_up_and_started() {
    let mut attempt = begin(Choice::Shell);
    match attempt.step(success()) {
        Some(LoginAction::LookUpShell { username }) => assert_eq!(username, "bob"),
        other => panic!("{:?}", other),
    }
    match attempt.step(Event::Shell(Some("/bin/zsh".to_string()))) {
        Some(LoginAction::Exchange { request: Request::StartSession { cmd, env }, .. }) => {
            assert_eq!(cmd, vec!["/bin/zsh", "-l"]);
            assert!(env.is_empty());
        }
        other => panic!("{:?}", other),
    }
}

#[test]
fn an_unknown_login_shell_is_sh() {
    let mut attempt = begin(Choice::Shell);
    attempt.step(success());
    match attempt.step(Event::Shell(None)) {
        Some(LoginAction::Exchange { request: Request::StartSession { cmd, .. }, .. }) => {
            assert_eq!(cmd, vec!["/bin/sh", "-l"]);
        }
        other => panic!("{:?}", other),
    }
}

#[test]
fn failed_authentication_is_login_incorrect() {
    let mut attempt = begin(Choice::Shell);
    match attempt.step(error(ErrorType::AuthError, "pam: 7")) {
        Some(LoginAction::End { cancel: true, log: None, outcome: LoginOutcome::Retry(text) }) => {
            assert_eq!(text, "Login incorrect");
        }
        other => panic!("{:?}", other),
    }
    assert!(!attempt.authenticated());
}

#[test]
fn other_errors_are_logged_but_not_shown() {
    let mut attempt = begin(Choice::Shell);
    match attempt.step(error(ErrorType::Error, "/etc/secret/path")) {
        Some(LoginAction::End { cancel: true, log, outcome: LoginOutcome::Retry(text) }) => {
            assert_eq!(log.as_deref(), Some("greetd error: /etc/secret/path"));
            assert_eq!(text, "an internal error occurred, see system logs");
        }
        other => panic!("{:?}", other),
    }
}

#[test]
fn a_session_that_does_not_start_is_reported() {
    let session = sway();
    let mut attempt = begin(Choice::Desktop(&session));
    attempt.step(success());
    assert_eq!(
        retry_text(attempt.step(error(ErrorType::Error, "no such file"))),
        "could not start session: no such file"
    );
    let mut attempt = begin(Choice::Desktop(&session));
    attempt.step(success());
    assert_eq!(
        retry_text(attempt.step(message(AuthMessageType::Visible, "more?"))),
        "unexpected auth prompt after successful login"
    );
    assert!(attempt.authenticated());
}

#[test]
fn events_out_of_turn_change_nothing() {
    let mut attempt = begin(Choice::Shell);
    assert!(attempt.step(Event::Reply("x".to_string())).is_none());
    assert!(attempt.step(Event::Shell(None)).is_none());
    assert!(attempt.step(message(AuthMessageType::Visible, "q")).is_some());
    assert!(attempt.step(success()).is_none());
    assert!(!attempt.authenticated());
    assert!(attempt.step(Event::Reply("x".to_string())).is_some());
    assert!(attempt.step(error(ErrorType::AuthError, "no")).is_some());
    assert!(attempt.step(success()).is_none());
    assert!(!attempt.authenticated());
}

#[test]
fn descriptions_change_nothing_but_the_log() {
    for error_type in [ErrorType::AuthError, ErrorType::Error] {
        let mut ends = Vec::new();
        for text in ["no such user", "account locked"] {
            let mut login = begin(Choice::Shell);
            login.step(message(AuthMessageType::Visible, "Password:"));
            login.step(Event::Reply("x".to_string()));
            match login.step(error(error_type, text)) {
                Some(LoginAction::End { cancel, log, outcome: LoginOutcome::Retry(shown) }) => {
                    assert_eq!(log.is_some(), matches!(error_type, ErrorType::Error));
                    ends.push((cancel, shown, login.authenticated()));
                }
                other => panic!("{:?}", other),
            }
        }
        assert_eq!(ends[0], ends[1]);
    }
}

#[test]
fn each_question_gets_the_line_typed_for_it() {
    let mut login = begin(Choice::Shell);
    let rounds = [("login:", "one"), ("Password:", "two"), ("Code:", "three")];
    for (question, reply) in rounds {
        login.step(message(AuthMessageType::Secret, question));
        match login.step(Event::Reply(reply.to_string())) {
            Some(LoginAction::Exchange {
                request: Request::PostAuthMessageResponse { response },
                scrub,
                ..
            }) => {
                assert_eq!(response.as_deref(), Some(reply));
                assert!(scrub);
            }
            other => panic!("{:?}", other),
        }
    }
}
