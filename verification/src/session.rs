//! Desktop sessions that a user can log into.

use crate::text::views;
use vstd::prelude::*;

verus! {

/// The display protocol that a session speaks.
#[derive(Clone, Copy, Debug, PartialEq, Eq, Structural)]
pub enum SessionKind {
    Wayland,
    X11,
}

/// A session: the name shown to the user, the command that starts it (the
/// program and its arguments), and its kind.
#[derive(Debug)]
pub struct Session {
    pub name: String,
    pub cmd: Vec<String>,
    pub kind: SessionKind,
}

/// What a [`Session`] holds.
#[verifier::ext_equal]
pub struct SessionView {
    pub name: Seq<char>,
    pub cmd: Seq<Seq<char>>,
    pub kind: SessionKind,
}

impl View for Session {
    type V = SessionView;

    open spec fn view(&self) -> SessionView {
        SessionView { name: self.name@, cmd: views(self.cmd@), kind: self.kind }
    }
}

/// What several sessions hold.
pub open spec fn session_views(sessions: Seq<Session>) -> Seq<SessionView> {
    sessions.map_values(|s: Session| s@)
}

/// The environment entry that announces a kind of session.
pub open spec fn kind_env(kind: SessionKind) -> Seq<char> {
    match kind {
        SessionKind::Wayland => "XDG_SESSION_TYPE=wayland"@,
        SessionKind::X11 => "XDG_SESSION_TYPE=x11"@,
    }
}

/// A copy of a list of words.
pub fn copy_words(from: &Vec<String>) -> (r: Vec<String>)
    ensures
        views(r@) == views(from@),
{
    let mut r: Vec<String> = Vec::new();
    let mut i: usize = 0;
    while i < from.len()
        invariant
            i <= from@.len(),
            views(r@) == views(from@).take(i as int),
        decreases from@.len() - i,
    {
        let ghost before = r@;
        r.push(from[i].clone());
        proof {
            assert(views(r@) =~= views(before).push(from@[i as int]@));
            assert(views(from@).take(i + 1) =~= views(from@).take(i as int).push(
                from@[i as int]@,
            ));
        }
        i = i + 1;
    }
    assert(views(from@).take(i as int) =~= views(from@));
    r
}

impl Clone for Session {
    fn clone(&self) -> (r: Session)
        ensures
            r@ == self@,
    {
        Session { name: self.name.clone(), cmd: copy_words(&self.cmd), kind: self.kind }
    }
}

impl Session {
    /// The environment that the session is started with.
    pub fn env(&self) -> (r: Vec<String>)
        ensures
            views(r@) == seq![kind_env(self.kind)],
    {
        let entry = match self.kind {
            SessionKind::Wayland => "XDG_SESSION_TYPE=wayland",
            SessionKind::X11 => "XDG_SESSION_TYPE=x11",
        };
        let mut r: Vec<String> = Vec::new();
        r.push(entry.to_owned());
        assert(views(r@) =~= seq![kind_env(self.kind)]);
        r
    }
}

/// A session is seen with its name, its whole command and its kind.
pub proof fn law_session_is_seen_whole(session: Session)
    ensures
        session@.name == session.name@,
        session@.kind == session.kind,
        session@.cmd.len() == session.cmd@.len(),
        forall|i: int| 0 <= i < session.cmd@.len() ==> #[trigger] session@.cmd[i] == session.cmd@[i]@,
{
}

/// Several sessions are seen one by one, in order.
pub proof fn law_sessions_are_seen_in_order(sessions: Seq<Session>, i: int)
    requires
        0 <= i < sessions.len(),
    ensures
        session_views(sessions).len() == sessions.len(),
        session_views(sessions)[i] == sessions[i]@,
{
}

/// A session is announced as what it is: the display protocol that it speaks,
/// under the variable for the type of session.
pub proof fn law_kind_is_announced(kind: SessionKind)
    ensures
        kind_env(kind) == "XDG_SESSION_TYPE="@ + if kind == SessionKind::X11 {
            "x11"@
        } else {
            "wayland"@
        },
{
    reveal_strlit("XDG_SESSION_TYPE=");
    reveal_strlit("XDG_SESSION_TYPE=x11");
    reveal_strlit("XDG_SESSION_TYPE=wayland");
    reveal_strlit("x11");
    reveal_strlit("wayland");
    assert("XDG_SESSION_TYPE=x11"@ =~= "XDG_SESSION_TYPE="@ + "x11"@);
    assert("XDG_SESSION_TYPE=wayland"@ =~= "XDG_SESSION_TYPE="@ + "wayland"@);
}

} // verus!
