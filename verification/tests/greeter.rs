use mini_greeter::greeter::{
    banner, startup, Greeter, GreeterAction, GreeterError, GreeterEvent, LoginResult,
};
use mini_greeter::login::LoginOutcome;
use mini_greeter::selection::Choice;
use mini_greeter::session::{Session, SessionKind};

fn sessions(names: &[&str]) -> Vec<Session> {
    names
        .iter()
        .map(|n| Session {
            name: n.to_string(),
            cmd: vec![n.to_string()],
            kind: SessionKind::X11,
        })
        .collect()
}

fn line(text: &str) -> GreeterEvent {
    GreeterEvent::Line(Some(text.to_string()))
}

fn over(authenticated: bool, result: LoginResult) -> GreeterEvent {
    GreeterEvent::LoginOver { authenticated, result }
}

fn retry(text: &str) -> LoginResult {
    LoginResult::Ended(LoginOutcome::Retry(text.to_string()))
}

/// Fails one login and gives the pause that follows.
fn fail_once(greeter: &mut Greeter<'_>, authenticated: bool) -> u64 {
    assert!(matches!(greeter.step(line("bob")), Some(GreeterAction::LogIn { .. })));
    let pause = match greeter.step(over(authenticated, retry("Login incorrect"))) {
        Some(GreeterAction::Report { text, error: false, millis }) => {
            assert_eq!(text, "\nLogin incorrect");
            millis
        }
        other => panic!("{:?}", other),
    };
    assert!(matches!(
        greeter.step(GreeterEvent::Reported),
        Some(GreeterAction::AskUsername { notice: None, .. })
    ));
    pause
}

#[test]
fn the_greeter_begins_by_asking_for_a_user_name() {
    let (_, action) = Greeter::new(&[]);
    match action {
        GreeterAction::AskUsername { notice, prompt } => {
            assert_eq!(notice, None);
            assert_eq!(prompt, "login: ");
        }
        other => panic!("{:?}", other),
    }
}

#[test]
fn echo_is_turned_on_before_anything_else() {
    let ready = startup(true);
    assert!(ready.restore_echo);
    assert_eq!(ready.refusal, None);
    let alone = startup(false);
    assert!(alone.restore_echo);
    assert_eq!(
        alone.refusal.as_deref(),
        Some(
            "error: GREETD_SOCK is not set.\n\
             This program is a greetd greeter and must be launched by greetd \
             (see the `command` setting in greetd's config.toml)."
        )
    );
}

#[test]
fn without_sessions_the_user_is_logged_into_the_shell() {
    let (mut greeter, _) = Greeter::new(&[]);
    match greeter.step(line("  bob\t")) {
        Some(GreeterAction::LogIn { announce: None, username, choice: Choice::Shell }) => {
            assert_eq!(username, "bob");
        }
        other => panic!("{:?}", other),
    }
}

#[test]
fn a_single_session_is_not_asked_about() {
    let all = sessions(&["Sway"]);
    let (mut greeter, _) = Greeter::new(&all);
    match greeter.step(line("bob")) {
        Some(GreeterAction::LogIn { announce, username, choice: Choice::Desktop(s) }) => {
            assert_eq!(announce.as_deref(), Some("session: Sway"));
            assert_eq!(username, "bob");
            assert_eq!(s.name, "Sway");
        }
        other => panic!("{:?}", other),
    }
}

#[test]
fn several_sessions_are_asked_about() {
    let all = sessions(&["GNOME", "Sway"]);
    let (mut greeter, _) = Greeter::new(&all);
    match greeter.step(line("bob")) {
        Some(GreeterAction::AskSession { menu, prompt }) => {
            assert_eq!(menu, vec!["available sessions:", "  1) GNOME", "  2) Sway"]);
            assert_eq!(prompt, "session [1-2, default 1]: ");
        }
        other => panic!("{:?}", other),
    }
    match greeter.step(line("2")) {
        Some(GreeterAction::LogIn { announce: None, username, choice: Choice::Desktop(s) }) => {
            assert_eq!(username, "bob");
            assert_eq!(s.name, "Sway");
        }
        other => panic!("{:?}", other),
    }
}

#[test]
fn a_wrong_choice_leads_back_to_the_user_name() {
    let all = sessions(&["GNOME", "Sway"]);
    let (mut greeter, _) = Greeter::new(&all);
    greeter.step(line("bob"));
    match greeter.step(line("3")) {
        Some(GreeterAction::AskUsername { notice, .. }) => {
            assert_eq!(notice.as_deref(), Some("not a valid choice, try again"));
        }
        other => panic!("{:?}", other),
    }
    greeter.step(line("bob"));
    assert!(matches!(
        greeter.step(GreeterEvent::Line(None)),
        Some(GreeterAction::AskUsername { notice: None, .. })
    ));
}

#[test]
fn an_empty_user_name_is_asked_for_again() {
    let (mut greeter, _) = Greeter::new(&[]);
    for text in ["", " ", "\t \u{a0}"] {
        assert!(matches!(
            greeter.step(line(text)),
            Some(GreeterAction::AskUsername { notice: None, .. })
        ));
    }
}

#[test]
fn the_end_of_input_ends_the_greeter() {
    let (mut greeter, _) = Greeter::new(&[]);
    assert!(matches!(
        greeter.step(GreeterEvent::Line(None)),
        Some(GreeterAction::Exit { new_line: true })
    ));
    assert!(greeter.step(line("bob")).is_none());
}

#[test]
fn a_started_session_ends_the_greeter() {
    let (mut greeter, _) = Greeter::new(&[]);
    greeter.step(line("bob"));
    assert!(matches!(
        greeter.step(over(true, LoginResult::Ended(LoginOutcome::Started))),
        Some(GreeterAction::Exit { new_line: false })
    ));
}

#[test]
fn failures_in_a_row_lengthen_the_pause() {
    let (mut greeter, _) = Greeter::new(&[]);
    let pauses: Vec<u64> = (0..14).map(|_| fail_once(&mut greeter, false)).collect();
    assert_eq!(pauses, vec![
        1200, 1200, 2000, 2800, 3600, 4400, 5200, 6000, 6800, 7600, 8400, 9200, 10000, 10000
    ]);
}

#[test]
fn correct_credentials_reset_the_count() {
    let (mut greeter, _) = Greeter::new(&[]);
    for _ in 0..6 {
        fail_once(&mut greeter, false);
    }
    assert_eq!(fail_once(&mut greeter, true), 1200);
    assert_eq!(fail_once(&mut greeter, false), 1200);
    assert_eq!(fail_once(&mut greeter, false), 2000);
}

#[test]
fn a_broken_conversation_is_reported_and_not_counted() {
    let (mut greeter, _) = Greeter::new(&[]);
    fail_once(&mut greeter, false);
    fail_once(&mut greeter, false);
    for error in [GreeterError::Io("gone".to_string()), GreeterError::Codec("gone".to_string())] {
        greeter.step(line("bob"));
        match greeter.step(over(false, LoginResult::Broken(error))) {
            Some(GreeterAction::Report { text, error: true, millis: 2000 }) => {
                assert_eq!(text, "\ncould not talk to greetd: gone");
            }
            other => panic!("{:?}", other),
        }
        greeter.step(GreeterEvent::Reported);
    }
    assert_eq!(fail_once(&mut greeter, false), 2000);
}

#[test]
fn events_that_are_not_waited_for_change_nothing() {
    let (mut greeter, _) = Greeter::new(&[]);
    assert!(greeter.step(GreeterEvent::Reported).is_none());
    assert!(greeter.step(over(true, retry("x"))).is_none());
    assert!(matches!(greeter.step(line("bob")), Some(GreeterAction::LogIn { .. })));
    assert!(greeter.step(line("bob")).is_none());
}

#[test]
fn the_banner_is_the_host_name() {
    assert_eq!(banner(Some("myhost\n")), "myhost\n");
    assert_eq!(banner(Some("  spaced host \n\n")), "spaced host\n");
    assert_eq!(banner(None), "localhost\n");
}
