use mini_greeter::discovery::{
    arrange_sessions, candidates, discover_sessions, is_session_file, session_dirs,
};
use mini_greeter::session::{Session, SessionKind};

fn session(name: &str, program: &str) -> Session {
    Session {
        name: name.to_string(),
        cmd: vec![program.to_string()],
        kind: SessionKind::Wayland,
    }
}

fn shown(sessions: &[Session]) -> Vec<(String, String)> {
    sessions.iter().map(|s| (s.name.clone(), s.cmd[0].clone())).collect()
}

fn pairs(expected: &[(&str, &str)]) -> Vec<(String, String)> {
    expected.iter().map(|(a, b)| (a.to_string(), b.to_string())).collect()
}

#[test]
fn session_files_end_in_desktop() {
    assert!(is_session_file(Some("desktop")));
    assert!(!is_session_file(Some("Desktop")));
    assert!(!is_session_file(Some("desktop~")));
    assert!(!is_session_file(Some("")));
    assert!(!is_session_file(None));
}

#[test]
fn system_directories_are_scanned_first() {
    let dirs = session_dirs();
    assert_eq!(dirs.len(), 6);
    assert_eq!(dirs[0].0, "/run/current-system/sw/share/wayland-sessions");
    assert_eq!(dirs[0].1, SessionKind::Wayland);
    assert_eq!(dirs[1].0, "/run/current-system/sw/share/xsessions");
    assert_eq!(dirs[1].1, SessionKind::X11);
    assert_eq!(dirs[2].0, "/usr/share/wayland-sessions");
    assert_eq!(dirs[3].0, "/usr/share/xsessions");
    assert_eq!(dirs[4].0, "/usr/local/share/wayland-sessions");
    assert_eq!(dirs[5].0, "/usr/local/share/xsessions");
    assert_eq!(dirs[5].1, SessionKind::X11);
}

#[test]
fn kind_is_announced_in_the_environment() {
    let mut s = session("Sway", "sway");
    assert_eq!(s.env(), vec!["XDG_SESSION_TYPE=wayland"]);
    s.kind = SessionKind::X11;
    assert_eq!(s.env(), vec!["XDG_SESSION_TYPE=x11"]);
}

#[test]
fn a_copy_holds_the_same() {
    let s = Session {
        name: "Sway".to_string(),
        cmd: vec!["sway".to_string(), "-d".to_string()],
        kind: SessionKind::X11,
    };
    let t = s.clone();
    assert_eq!(t.name, "Sway");
    assert_eq!(t.cmd, vec!["sway", "-d"]);
    assert_eq!(t.kind, SessionKind::X11);
}

#[test]
fn sessions_are_offered_by_name_whatever_the_case() {
    let found = vec![session("sway", "a"), session("GNOME", "b"), session("Hyprland", "c")];
    assert_eq!(
        shown(&discover_sessions(&found)),
        pairs(&[("GNOME", "b"), ("Hyprland", "c"), ("sway", "a")])
    );
    // In upper case this would stand the other way round.
    let found = vec![session("a", "1"), session("B", "2"), session("_", "3"), session("Z", "4")];
    assert_eq!(
        shown(&discover_sessions(&found)),
        pairs(&[("_", "3"), ("a", "1"), ("B", "2"), ("Z", "4")])
    );
}

#[test]
fn first_found_wins_among_equal_names() {
    let found = vec![session("Sway", "first"), session("GNOME", "g"), session("Sway", "second")];
    assert_eq!(
        shown(&discover_sessions(&found)),
        pairs(&[("GNOME", "g"), ("Sway", "first")])
    );
}

#[test]
fn names_that_differ_in_case_are_both_offered() {
    let found = vec![session("sway", "a"), session("Sway", "b"), session("Sway", "c")];
    assert_eq!(shown(&discover_sessions(&found)), pairs(&[("sway", "a"), ("Sway", "b")]));
}

#[test]
fn names_found_in_turns_repeat() {
    let found = vec![session("sway", "a"), session("Sway", "b"), session("sway", "c")];
    assert_eq!(
        shown(&discover_sessions(&found)),
        pairs(&[("sway", "a"), ("Sway", "b"), ("sway", "c")])
    );
}

#[test]
fn nothing_found_nothing_offered() {
    assert!(discover_sessions(&Vec::new()).is_empty());
}

#[test]
fn sessions_follow_the_keys_given() {
    let found = vec![session("x", "1"), session("y", "2"), session("z", "3"), session("w", "4")];
    let keys: Vec<String> = ["b", "a", "b", "a"].iter().map(|k| k.to_string()).collect();
    assert_eq!(
        shown(&arrange_sessions(&found, &keys)),
        pairs(&[("y", "2"), ("w", "4"), ("x", "1"), ("z", "3")])
    );
}

#[test]
fn arranging_is_a_stable_sort_without_repeats() {
    let names = ["b", "B", "a", "C", "b", "c", "A", "a", "é", "É", "b", "ß", "SS", "İ", "i"];
    let mut found = Vec::new();
    for (i, name) in names.iter().enumerate() {
        found.push(session(name, &i.to_string()));
    }
    let mut expected = shown(&found);
    expected.sort_by(|a, b| a.0.to_lowercase().cmp(&b.0.to_lowercase()));
    expected.dedup_by(|a, b| a.0 == b.0);
    assert_eq!(shown(&discover_sessions(&found)), expected);
}

fn file(
    kind: SessionKind,
    extension: Option<&str>,
    content: Option<&str>,
) -> (SessionKind, Option<String>, Option<String>) {
    (kind, extension.map(str::to_string), content.map(str::to_string))
}

#[test]
fn session_files_are_read_in_the_order_found() {
    let files = vec![
        file(SessionKind::Wayland, Some("desktop"), Some("Name=Sway\nExec=sway\n")),
        file(SessionKind::Wayland, Some("conf"), Some("Name=No\nExec=no\n")),
        file(SessionKind::Wayland, None, Some("Name=No\nExec=no\n")),
        file(SessionKind::Wayland, Some("desktop"), None),
        file(SessionKind::X11, Some("desktop"), Some("Name=Gone\nHidden=true\nExec=gone\n")),
        file(SessionKind::X11, Some("desktop"), Some("Name=I3\nExec=i3 %u\nTryExec=i3\n")),
    ];
    let read = candidates(&files);
    assert_eq!(read.len(), 3);
    let binaries: Vec<Option<&str>> = read.iter().map(|c| c.binary()).collect();
    assert_eq!(binaries, vec![None, None, Some("i3")]);
    let sessions: Vec<Session> = read.into_iter().filter_map(|c| c.settle(true)).collect();
    assert_eq!(shown(&sessions), pairs(&[("Sway", "sway"), ("I3", "i3")]));
    assert_eq!(sessions[0].kind, SessionKind::Wayland);
    assert_eq!(sessions[1].kind, SessionKind::X11);
    assert!(candidates(&Vec::new()).is_empty());
}

#[test]
fn directories_are_read_in_turn() {
    let one = vec![file(SessionKind::Wayland, Some("desktop"), Some("Name=B\nExec=b\n"))];
    let other = vec![file(SessionKind::X11, Some("desktop"), Some("Name=A\nExec=a\n"))];
    let both = vec![one[0].clone(), other[0].clone()];
    let names = |files| -> Vec<String> {
        candidates(files)
            .into_iter()
            .filter_map(|c| c.settle(true))
            .map(|s| s.name)
            .collect()
    };
    let mut apart = names(&one);
    apart.extend(names(&other));
    assert_eq!(names(&both), apart);
    assert_eq!(apart, vec!["B", "A"]);
}
