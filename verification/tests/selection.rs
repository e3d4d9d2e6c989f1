use mini_greeter::number::write_number;
use mini_greeter::selection::{pick_session, select_session, Choice, Selection};
use mini_greeter::session::{Session, SessionKind};

fn sessions(names: &[&str]) -> Vec<Session> {
    names
        .iter()
        .map(|n| Session {
            name: n.to_string(),
            cmd: vec![n.to_lowercase()],
            kind: SessionKind::Wayland,
        })
        .collect()
}

fn picked_name(all: &[Session], answer: &str) -> Option<String> {
    match pick_session(all, answer) {
        Some(Choice::Desktop(s)) => Some(s.name.clone()),
        Some(Choice::Shell) => Some("shell".to_string()),
        None => None,
    }
}

#[test]
fn without_sessions_the_shell_is_taken() {
    match select_session(&[]) {
        Selection::Settled { announce, choice } => {
            assert!(announce.is_none());
            assert!(matches!(choice, Choice::Shell));
        }
        _ => panic!("asked"),
    }
}

#[test]
fn a_single_session_is_taken_and_announced() {
    let all = sessions(&["Sway"]);
    match select_session(&all) {
        Selection::Settled { announce, choice: Choice::Desktop(s) } => {
            assert_eq!(announce.as_deref(), Some("session: Sway"));
            assert_eq!(s.name, "Sway");
        }
        _ => panic!("not settled"),
    }
}

#[test]
fn several_sessions_make_a_menu() {
    let all = sessions(&["GNOME", "Sway", "i3"]);
    match select_session(&all) {
        Selection::Ask { menu, prompt } => {
            assert_eq!(menu, vec!["available sessions:", "  1) GNOME", "  2) Sway", "  3) i3"]);
            assert_eq!(prompt, "session [1-3, default 1]: ");
        }
        _ => panic!("not asked"),
    }
}

#[test]
fn an_empty_answer_picks_the_first() {
    let all = sessions(&["GNOME", "Sway"]);
    assert_eq!(picked_name(&all, ""), Some("GNOME".to_string()));
    assert_eq!(picked_name(&all, " \t "), Some("GNOME".to_string()));
}

#[test]
fn the_number_shown_picks_the_session() {
    let names: Vec<String> = (1..=12).map(|i| format!("session {}", i)).collect();
    let all = sessions(&names.iter().map(|n| n.as_str()).collect::<Vec<_>>());
    for i in 0..all.len() {
        assert_eq!(picked_name(&all, &write_number(i + 1)), Some(names[i].clone()));
        let padded = format!("  {}\t", i + 1);
        assert_eq!(picked_name(&all, &padded), Some(names[i].clone()));
    }
    assert_eq!(picked_name(&all, "+007"), Some("session 7".to_string()));
}

#[test]
fn other_answers_pick_nothing() {
    let all = sessions(&["GNOME", "Sway"]);
    for answer in ["0", "3", "-1", "x", "1x", "1 2", "+", "99999999999999999999999"] {
        assert_eq!(picked_name(&all, answer), None);
    }
}
