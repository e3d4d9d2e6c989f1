use mini_greeter::desktop::{
    binary_candidates, clean_command, command_words, judge_entry, parse_desktop_file, read_entry,
    Candidate, DesktopEntry,
};
use mini_greeter::session::{Session, SessionKind};

fn offered(content: &str) -> Option<Session> {
    parse_desktop_file(content, SessionKind::Wayland).settle(true)
}

fn command(content: &str) -> Vec<String> {
    offered(content).unwrap().cmd
}

#[test]
fn a_plain_entry_is_offered() {
    let file = "[Desktop Entry]\nName=Sway\nComment=An i3-compatible compositor\nExec=sway\n";
    let session = parse_desktop_file(file, SessionKind::X11).settle(false).unwrap();
    assert_eq!(session.name, "Sway");
    assert_eq!(session.cmd, vec!["sway"]);
    assert_eq!(session.kind, SessionKind::X11);
}

#[test]
fn lines_are_trimmed_and_may_end_in_carriage_returns() {
    let session = offered("  Name=Sway  \r\n\tExec=sway -d\t\r\n").unwrap();
    assert_eq!(session.name, "Sway");
    assert_eq!(session.cmd, vec!["sway", "-d"]);
}

#[test]
fn the_first_value_of_a_key_stands() {
    let entry = read_entry("Name=A\nName=B\nExec=x\nExec=y\nTryExec=t\nTryExec=u\n");
    assert_eq!(entry.name.as_deref(), Some("A"));
    assert_eq!(entry.command.as_deref(), Some("x"));
    assert_eq!(entry.try_exec.as_deref(), Some("t"));
    assert!(!entry.hidden && !entry.no_display);
}

#[test]
fn keys_must_stand_at_the_start_of_a_line() {
    let entry = read_entry("Generic Name=A\nName =B\nname=C\nName[de]=D");
    assert!(entry.name.is_none());
    let entry = read_entry("");
    assert!(entry.name.is_none() && entry.command.is_none() && entry.try_exec.is_none());
    let entry = read_entry("Name=");
    assert_eq!(entry.name.as_deref(), Some(""));
}

#[test]
fn hidden_entries_are_rejected() {
    assert!(offered("Name=A\nExec=a\nHidden=true").is_none());
    assert!(offered("Name=A\nExec=a\n  NoDisplay=true  ").is_none());
    assert!(offered("Name=A\nExec=a\nHidden=false\nNoDisplay=True").is_some());
    assert!(offered("Name=A\nExec=a\nHidden=true\nHidden=false").is_none());
}

#[test]
fn incomplete_entries_are_rejected() {
    assert!(offered("Name=A").is_none());
    assert!(offered("Exec=a").is_none());
    assert!(offered("Name=A\nExec=").is_none());
    assert!(offered("Name=A\nExec=%U %f").is_none());
    assert!(offered("Name=\nExec=a").is_some());
}

#[test]
fn field_codes_are_dropped() {
    assert_eq!(clean_command("firefox %u  --new   %F x%y"), "firefox --new x%y");
    assert_eq!(command("Name=A\nExec=sway %U --debug %f"), vec!["sway", "--debug"]);
}

#[test]
fn commands_are_split_by_the_shell_rules() {
    assert_eq!(command("Name=A\nExec=env X=1 'my prog' a\\ b \"c\""), vec![
        "env", "X=1", "my prog", "a b", "c"
    ]);
    assert_eq!(command("Name=A\nExec=dbus-run-session -- 'sway   -d'"), vec![
        "dbus-run-session", "--", "sway -d"
    ]);
    assert_eq!(command("Name=A\nExec=sway # comment"), vec!["sway"]);
}

#[test]
fn an_unclosed_quote_leaves_the_words_as_they_stand() {
    assert_eq!(command("Name=A\nExec=it's %U fine"), vec!["it's", "fine"]);
    assert_eq!(command_words("it's fine", None), vec!["it's", "fine"]);
    assert_eq!(command_words("a b", Some(vec!["a b".to_string()])), vec!["a b"]);
}

#[test]
fn a_comment_alone_is_no_command() {
    assert!(offered("Name=A\nExec=# nothing").is_none());
}

#[test]
fn try_exec_makes_an_offer_conditional() {
    let file = "Name=A\nExec=a\nTryExec=/usr/bin/a";
    let candidate = parse_desktop_file(file, SessionKind::Wayland);
    assert_eq!(candidate.binary(), Some("/usr/bin/a"));
    assert_eq!(candidate.settle(true).unwrap().name, "A");
    assert!(parse_desktop_file(file, SessionKind::Wayland).settle(false).is_none());
    let plain = parse_desktop_file("Name=A\nExec=a", SessionKind::Wayland);
    assert!(plain.binary().is_none());
    assert!(plain.settle(false).is_some());
    let hidden = parse_desktop_file("TryExec=a\nHidden=true", SessionKind::Wayland);
    assert!(hidden.binary().is_none());
    assert!(matches!(hidden, Candidate::Rejected));
}

#[test]
fn entries_are_judged_by_the_split_given() {
    let entry = |name: Option<&str>, command: Option<&str>| DesktopEntry {
        name: name.map(str::to_string),
        command: command.map(str::to_string),
        try_exec: None,
        hidden: false,
        no_display: false,
    };
    let split = Some(vec!["p".to_string(), "q r".to_string()]);
    match judge_entry(entry(Some("N"), Some("p 'q r'")), SessionKind::X11, split) {
        Candidate::Offered(session) => {
            assert_eq!(session.name, "N");
            assert_eq!(session.cmd, vec!["p", "q r"]);
            assert_eq!(session.kind, SessionKind::X11);
        }
        _ => panic!("not offered"),
    }
    let none = judge_entry(entry(Some("N"), Some("p")), SessionKind::X11, Some(Vec::new()));
    assert!(matches!(none, Candidate::Rejected));
    let nameless = judge_entry(entry(None, Some("p")), SessionKind::X11, None);
    assert!(matches!(nameless, Candidate::Rejected));
}

#[test]
fn paths_are_looked_up_directly_and_names_on_the_path() {
    assert_eq!(binary_candidates("/opt/x", Some("/bin:/usr/bin")), vec!["/opt/x"]);
    assert_eq!(binary_candidates("./x", None), vec!["./x"]);
    assert_eq!(binary_candidates("x", Some("/bin:/usr/bin/::rel")), vec![
        "/bin/x", "/usr/bin/x", "x", "rel/x"
    ]);
    assert!(binary_candidates("x", None).is_empty());
    assert_eq!(binary_candidates("x", Some("")), vec!["x"]);
}

#[test]
fn path_lookup_agrees_with_the_system() {
    for path in ["/bin:/usr/bin", "a//:/:::b", "", ":", "/a b:c"] {
        let expected: Vec<String> = path
            .split(':')
            .map(|dir| std::path::Path::new(dir).join("prog").to_str().unwrap().to_string())
            .collect();
        assert_eq!(binary_candidates("prog", Some(path)), expected);
    }
}

#[test]
fn plain_lines_are_split_at_white_space() {
    for line in ["", "sway", "env A=b sway -d", " tab\tand\nfeed ", "\u{200b}x $y ~ * ; | a=b"] {
        let expected: Vec<String> = line.split_whitespace().map(str::to_string).collect();
        assert_eq!(shell_words::split(line).unwrap(), expected);
        assert_eq!(command_words(line, None), expected);
    }
}

#[test]
fn field_codes_inside_words_are_taken_out() {
    assert_eq!(command("Name=Foo\nExec=foo --uri=%u\n"), vec!["foo", "--uri="]);
    assert_eq!(clean_command("foo --uri=%u --a%Ub x%fy%F"), "foo --uri= --ab xy");
    assert_eq!(clean_command("foo 100% a%% b%y %foo"), "foo 100% a%% b%y");
    for code in "fFuUdDnNickvm".chars() {
        assert_eq!(clean_command(&format!("foo --x=%{}y", code)), "foo --x=y");
    }
}

#[test]
fn an_escaped_percent_sign_stays() {
    assert_eq!(command("Name=Foo\nExec=foo --fmt=%%d\n"), vec!["foo", "--fmt=%%d"]);
    assert_eq!(command("Name=Foo\nExec=sh -c \"date +%%d\"\n"), vec!["sh", "-c", "date +%%d"]);
    for word in ["x%%uu", "--a=%%f", "a%%", "a%%%%k", "100%", "b%y", "a%%%", "a%%%y"] {
        assert_eq!(clean_command(word), word);
    }
}

#[test]
fn field_codes_are_read_from_the_left() {
    assert_eq!(clean_command("x%%%uu z"), "x%%u z");
    assert_eq!(clean_command("a%u%U%%kk"), "a%%kk");
    assert_eq!(clean_command("a%%c%uc"), "a%%cc");
    assert_eq!(clean_command("a%%%%%ff"), "a%%%%f");
    assert_eq!(clean_command("a%u%"), "a%");
}

#[test]
fn a_cleaned_line_stays_as_it_is() {
    let lines = ["foo --uri=%u x%%uu", "x%%%uuu z%", "a%u%U%%kk %f", "a%%%%%ff b%y%c", "a%u%"];
    for line in lines {
        let cleaned = clean_command(line);
        assert_eq!(clean_command(&cleaned), cleaned);
    }
}

#[test]
fn field_codes_go_also_where_a_quote_is_left_open() {
    assert_eq!(command("Name=Foo\nExec=foo it's --uri=%u %F\n"), vec!["foo", "it's", "--uri="]);
}
