//! The greeter as a whole: ask for a user name, select a session, log in, and
//! begin again where that fails.
//!
//! A [`Greeter`] decides what to do next. Whoever holds it carries each
//! [`GreeterAction`] out and hands back what came of it as a [`GreeterEvent`].

use crate::backoff::{backoff_delay, pause, BASE_PAUSE, MAX_BACKOFF};
use crate::login::{LoginOutcome, OutcomeView};
use crate::number::number;
use crate::selection::{
    law_answer_picks_by_number, law_blank_answer_picks_the_first, law_picks_from_the_menu,
    menu_lines, menu_prompt, pick_session, picked, select_session, selection_of, Choice, ChoiceView,
    Selection, SelectionView,
};
use crate::session::{session_views, Session, SessionView};
use crate::text::{
    chars_of, law_blank_is_trimmed_away, law_trimmed_is_what_stands_between, lemma_trimmed_ends,
    string_of, trim, trimmed, view_option, views, whitespace,
};
use vstd::prelude::*;
use vstd::string::StringExecFns;

verus! {

/// Why the conversation with greetd broke off.
#[derive(Debug)]
pub enum GreeterError {
    /// A connection, a terminal or a file failed.
    Io(String),
    /// A message could not be sent, received or understood.
    Codec(String),
}

/// How a login came out.
#[derive(Debug)]
pub enum LoginResult {
    /// greetd was heard out.
    Ended(LoginOutcome),
    /// The conversation broke off.
    Broken(GreeterError),
}

/// What came of an action of the greeter.
#[derive(Debug)]
pub enum GreeterEvent {
    /// The line that the user typed; `None` where there is no more input.
    Line(Option<String>),
    /// How the login came out, and whether the user was authenticated in it.
    LoginOver { authenticated: bool, result: LoginResult },
    /// A report has been shown for long enough.
    Reported,
}

/// Something for the greeter to do.
#[derive(Debug)]
pub enum GreeterAction<'a> {
    /// Show the notice if there is one, clear the screen, show the banner and ask
    /// for the user name with the prompt.
    AskUsername { notice: Option<String>, prompt: String },
    /// Show the menu and ask for a session.
    AskSession { menu: Vec<String>, prompt: String },
    /// Show the announcement if there is one and log the user in.
    LogIn { announce: Option<String>, username: String, choice: Choice<'a> },
    /// Turn echo on, show the text, on the error stream where `error` is set, and
    /// wait.
    Report { text: String, error: bool, millis: u64 },
    /// End the program, on a new line where `new_line` is set.
    Exit { new_line: bool },
}

/// What the greeter waits for.
#[derive(Debug)]
enum Stage {
    Username,
    Session { username: String },
    Login,
    Report,
    Exited,
}

/// The greeter.
#[derive(Debug)]
pub struct Greeter<'a> {
    sessions: &'a [Session],
    failures: u32,
    stage: Stage,
}

/// What a [`GreeterError`] says.
pub open spec fn error_text(error: GreeterError) -> Seq<char> {
    match error {
        GreeterError::Io(text) => text@,
        GreeterError::Codec(text) => text@,
    }
}

/// What a [`LoginResult`] holds.
#[verifier::ext_equal]
pub enum ResultView {
    Ended(OutcomeView),
    Broken(Seq<char>),
}

/// What a [`GreeterEvent`] holds.
#[verifier::ext_equal]
pub enum GreeterEventView {
    Line(Option<Seq<char>>),
    LoginOver { authenticated: bool, result: ResultView },
    Reported,
}

/// What a [`GreeterAction`] holds.
#[verifier::ext_equal]
pub enum GreeterActionView {
    AskUsername { notice: Option<Seq<char>>, prompt: Seq<char> },
    AskSession { menu: Seq<Seq<char>>, prompt: Seq<char> },
    LogIn { announce: Option<Seq<char>>, username: Seq<char>, choice: ChoiceView },
    Report { text: Seq<char>, error: bool, millis: nat },
    Exit { new_line: bool },
}

/// What the greeter waits for: a user name, the session for a user, the end of a
/// login, the end of a report, or nothing more.
#[verifier::ext_equal]
pub enum StageView {
    Username,
    Session { username: Seq<char> },
    Login,
    Report,
    Exited,
}

/// What a [`Greeter`] holds: the sessions offered, the number of failed logins
/// in a row, and what it waits for.
#[verifier::ext_equal]
pub struct GreeterView {
    pub sessions: Seq<SessionView>,
    pub failures: nat,
    pub stage: StageView,
}

impl View for LoginResult {
    type V = ResultView;

    open spec fn view(&self) -> ResultView {
        match self {
            LoginResult::Ended(outcome) => ResultView::Ended(outcome@),
            LoginResult::Broken(error) => ResultView::Broken(error_text(*error)),
        }
    }
}

impl View for GreeterEvent {
    type V = GreeterEventView;

    open spec fn view(&self) -> GreeterEventView {
        match self {
            GreeterEvent::Line(line) => GreeterEventView::Line(view_option(*line)),
            GreeterEvent::LoginOver { authenticated, result } => GreeterEventView::LoginOver {
                authenticated: *authenticated,
                result: result@,
            },
            GreeterEvent::Reported => GreeterEventView::Reported,
        }
    }
}

impl<'a> View for GreeterAction<'a> {
    type V = GreeterActionView;

    open spec fn view(&self) -> GreeterActionView {
        match self {
            GreeterAction::AskUsername { notice, prompt } => GreeterActionView::AskUsername {
                notice: view_option(*notice),
                prompt: prompt@,
            },
            GreeterAction::AskSession { menu, prompt } => GreeterActionView::AskSession {
                menu: views(menu@),
                prompt: prompt@,
            },
            GreeterAction::LogIn { announce, username, choice } => GreeterActionView::LogIn {
                announce: view_option(*announce),
                username: username@,
                choice: choice@,
            },
            GreeterAction::Report { text, error, millis } => GreeterActionView::Report {
                text: text@,
                error: *error,
                millis: *millis as nat,
            },
            GreeterAction::Exit { new_line } => GreeterActionView::Exit { new_line: *new_line },
        }
    }
}

spec fn stage_view(stage: Stage) -> StageView {
    match stage {
        Stage::Username => StageView::Username,
        Stage::Session { username } => StageView::Session { username: username@ },
        Stage::Login => StageView::Login,
        Stage::Report => StageView::Report,
        Stage::Exited => StageView::Exited,
    }
}

impl<'a> View for Greeter<'a> {
    type V = GreeterView;

    closed spec fn view(&self) -> GreeterView {
        GreeterView {
            sessions: session_views(self.sessions@),
            failures: self.failures as nat,
            stage: stage_view(self.stage),
        }
    }
}

/// The user name on a line, if there is one: the line without the white space
/// around it.
pub open spec fn username_on(line: Seq<char>) -> Option<Seq<char>> {
    if trimmed(line).len() > 0 {
        Some(trimmed(line))
    } else {
        None
    }
}

/// One failure more, as far as they are counted.
pub open spec fn one_more(failures: nat) -> nat {
    if failures < u32::MAX {
        failures + 1
    } else {
        failures
    }
}

/// Asks for the user name, after a notice if there is one.
pub open spec fn ask_for_user(notice: Option<Seq<char>>) -> GreeterActionView {
    GreeterActionView::AskUsername { notice, prompt: "login: "@ }
}

/// What the greeter does when the login of a user is to begin, and what it waits
/// for then.
pub open spec fn session_step(sessions: Seq<SessionView>, username: Seq<char>) -> (
    StageView,
    GreeterActionView,
) {
    match selection_of(sessions) {
        SelectionView::Settled { announce, choice } => (
            StageView::Login,
            GreeterActionView::LogIn { announce, username, choice },
        ),
        SelectionView::Ask { menu, prompt } => (
            StageView::Session { username },
            GreeterActionView::AskSession { menu, prompt },
        ),
    }
}

/// What the greeter does when a login is over: the failures counted since the
/// last time a user was authenticated, what it waits for, and what it does.
pub open spec fn login_over(failures: nat, authenticated: bool, result: ResultView) -> (
    nat,
    StageView,
    GreeterActionView,
) {
    let before = if authenticated {
        0
    } else {
        failures
    };
    match result {
        ResultView::Ended(OutcomeView::Started) => (
            before,
            StageView::Exited,
            GreeterActionView::Exit { new_line: false },
        ),
        ResultView::Ended(OutcomeView::Retry(text)) => (
            one_more(before),
            StageView::Report,
            GreeterActionView::Report {
                text: "\n"@ + text,
                error: false,
                millis: pause(one_more(before)),
            },
        ),
        ResultView::Broken(text) => (
            before,
            StageView::Report,
            GreeterActionView::Report {
                text: "\ncould not talk to greetd: "@ + text,
                error: true,
                millis: 2_000,
            },
        ),
    }
}

/// What the greeter does on an event, and what holds of it then. `None` for an
/// event that it does not wait for.
pub open spec fn greeter_reaction(greeter: GreeterView, event: GreeterEventView) -> Option<
    (GreeterView, GreeterActionView),
> {
    let sessions = greeter.sessions;
    let failures = greeter.failures;
    let again = GreeterView { sessions, failures, stage: StageView::Username };
    match (greeter.stage, event) {
        (StageView::Username, GreeterEventView::Line(Some(line))) => Some(
            match username_on(line) {
                Some(username) => {
                    let (stage, action) = session_step(sessions, username);
                    (GreeterView { sessions, failures, stage }, action)
                },
                None => (again, ask_for_user(None)),
            },
        ),
        (StageView::Username, GreeterEventView::Line(None)) => Some(
            (
                GreeterView { sessions, failures, stage: StageView::Exited },
                GreeterActionView::Exit { new_line: true },
            ),
        ),
        (StageView::Session { username }, GreeterEventView::Line(Some(answer))) => Some(
            match picked(answer, sessions.len()) {
                Some(i) => (
                    GreeterView { sessions, failures, stage: StageView::Login },
                    GreeterActionView::LogIn {
                        announce: None,
                        username,
                        choice: ChoiceView::Desktop(sessions[i]),
                    },
                ),
                None => (
                    again,
                    ask_for_user(Some("not a valid choice, try again"@)),
                ),
            },
        ),
        (StageView::Session { username }, GreeterEventView::Line(None)) => Some(
            (again, ask_for_user(None)),
        ),
        (StageView::Login, GreeterEventView::LoginOver { authenticated, result }) => {
            let (count, stage, action) = login_over(failures, authenticated, result);
            Some((GreeterView { sessions, failures: count, stage }, action))
        },
        (StageView::Report, GreeterEventView::Reported) => Some(
            (again, ask_for_user(None)),
        ),
        _ => None,
    }
}

/// The text to show at the top of the screen, with the host name as it was read
/// from its file, if it could be.
pub fn banner(hostname: Option<&str>) -> (r: String)
    ensures
        r@ == match hostname {
            Some(text) => trimmed(text@) + "\n"@,
            None => "localhost"@ + "\n"@,
        },
{
    let name = match hostname {
        Some(text) => string_of(trim(chars_of(text).as_slice())),
        None => "localhost".to_owned(),
    };
    name.concat("\n")
}

/// What to do before anything else.
#[derive(Debug)]
pub struct Startup {
    /// Whether to turn echo on: a greeter that was killed while it asked for a
    /// password has left it off.
    pub restore_echo: bool,
    /// The text for the error stream, where the program is to end with a failure
    /// status then.
    pub refusal: Option<String>,
}

/// The text for a program that was not launched by greetd.
pub open spec fn not_launched() -> Seq<char> {
    "error: GREETD_SOCK is not set.\nThis program is a greetd greeter and must be launched by greetd (see the `command` setting in greetd's config.toml)."@
}

/// What to do before anything else, where the path of the socket of greetd is
/// known or not: echo is turned on either way, and without a socket the program
/// ends.
pub fn startup(has_socket: bool) -> (r: Startup)
    ensures
        r.restore_echo,
        view_option(r.refusal) == if has_socket {
            None
        } else {
            Some(not_launched())
        },
{
    let refusal = if has_socket {
        None
    } else {
        Some(
            "error: GREETD_SOCK is not set.\nThis program is a greetd greeter and must be launched by greetd (see the `command` setting in greetd's config.toml).".to_owned(),
        )
    };
    Startup { restore_echo: true, refusal }
}

/// Asks for the user name, after a notice if there is one.
fn ask_username<'a>(notice: Option<String>) -> (r: GreeterAction<'a>)
    ensures
        r@ == ask_for_user(view_option(notice)),
{
    GreeterAction::AskUsername { notice, prompt: "login: ".to_owned() }
}

/// The text of an error.
fn text_of(error: GreeterError) -> (r: String)
    ensures
        r@ == error_text(error),
{
    match error {
        GreeterError::Io(text) => text,
        GreeterError::Codec(text) => text,
    }
}

impl<'a> Greeter<'a> {
    #[verifier::type_invariant]
    spec fn consistent(self) -> bool {
        self.stage is Session ==> self.sessions@.len() > 1
    }

    /// A greeter for the sessions offered, and the first thing to do.
    pub fn new(sessions: &'a [Session]) -> (r: (Greeter<'a>, GreeterAction<'a>))
        ensures
            r.0@ == (GreeterView {
                sessions: session_views(sessions@),
                failures: 0,
                stage: StageView::Username,
            }),
            r.1@ == ask_for_user(None),
    {
        let greeter = Greeter { sessions, failures: 0, stage: Stage::Username };
        (greeter, ask_username(None))
    }

    /// What to do when the login of a user is to begin.
    fn choose_session(&self, username: String) -> (r: (Stage, GreeterAction<'a>))
        ensures
            (stage_view(r.0), r.1@) == session_step(self@.sessions, username@),
            r.0 is Session ==> self.sessions@.len() > 1,
    {
        match select_session(self.sessions) {
            Selection::Settled { announce, choice } => (
                Stage::Login,
                GreeterAction::LogIn { announce, username, choice },
            ),
            Selection::Ask { menu, prompt } => (
                Stage::Session { username },
                GreeterAction::AskSession { menu, prompt },
            ),
        }
    }

    /// What to do with the answer to the menu.
    fn answer_menu(&self, username: String, answer: String) -> (r: (Stage, GreeterAction<'a>))
        requires
            self.sessions@.len() > 1,
        ensures
            !(r.0 is Session),
            match picked(answer@, self@.sessions.len()) {
                Some(i) => stage_view(r.0) == StageView::Login && r.1@ == (
                GreeterActionView::LogIn {
                    announce: None,
                    username: username@,
                    choice: ChoiceView::Desktop(self@.sessions[i]),
                }),
                None => stage_view(r.0) == StageView::Username && r.1@ == ask_for_user(
                    Some("not a valid choice, try again"@),
                ),
            },
    {
        proof {
            law_picks_from_the_menu(answer@, self.sessions@.len());
        }
        match pick_session(self.sessions, answer.as_str()) {
            Some(choice) => (
                Stage::Login,
                GreeterAction::LogIn { announce: None, username, choice },
            ),
            None => (
                Stage::Username,
                ask_username(Some("not a valid choice, try again".to_owned())),
            ),
        }
    }

    /// What to do when a login is over, and the failures counted then.
    fn finish_login(&self, authenticated: bool, result: LoginResult) -> (r: (
        u32,
        Stage,
        GreeterAction<'a>,
    ))
        ensures
            (r.0 as nat, stage_view(r.1), r.2@) == login_over(
                self@.failures,
                authenticated,
                result@,
            ),
            !(r.1 is Session),
    {
        let before: u32 = if authenticated { 0 } else { self.failures };
        match result {
            LoginResult::Ended(outcome) => match outcome {
                LoginOutcome::Started => (
                    before,
                    Stage::Exited,
                    GreeterAction::Exit { new_line: false },
                ),
                LoginOutcome::Retry(message) => {
                    let count: u32 = before.saturating_add(1);
                    let mut text = "\n".to_owned();
                    text.append(message.as_str());
                    let millis: u64 = backoff_delay(count);
                    (count, Stage::Report, GreeterAction::Report { text, error: false, millis })
                },
            },
            LoginResult::Broken(error) => {
                let mut text = "\ncould not talk to greetd: ".to_owned();
                text.append(text_of(error).as_str());
                (
                    before,
                    Stage::Report,
                    GreeterAction::Report { text, error: true, millis: 2_000 },
                )
            },
        }
    }

    /// Takes in what came of the last action and decides what to do next. An
    /// event that the greeter does not wait for gives `None` and changes nothing.
    pub fn step(&mut self, event: GreeterEvent) -> (r: Option<GreeterAction<'a>>)
        ensures
            match greeter_reaction(old(self)@, event@) {
                Some((next, action)) => {
                    &&& r matches Some(a) && a@ == action
                    &&& final(self)@ == next
                },
                None => r is None && final(self)@ == old(self)@,
            },
    {
        proof {
            use_type_invariant(&*self);
        }
        let (count, stage, action) = match (&self.stage, event) {
            (Stage::Username, GreeterEvent::Line(Some(line))) => {
                let chars = chars_of(line.as_str());
                let name = trim(chars.as_slice());
                if name.len() > 0 {
                    let (stage, action) = self.choose_session(string_of(name));
                    (self.failures, stage, action)
                } else {
                    (self.failures, Stage::Username, ask_username(None))
                }
            },
            (Stage::Username, GreeterEvent::Line(None)) => (
                self.failures,
                Stage::Exited,
                GreeterAction::Exit { new_line: true },
            ),
            (Stage::Session { username }, GreeterEvent::Line(Some(answer))) => {
                let (stage, action) = self.answer_menu(username.clone(), answer);
                (self.failures, stage, action)
            },
            (Stage::Session { .. }, GreeterEvent::Line(None)) => (
                self.failures,
                Stage::Username,
                ask_username(None),
            ),
            (Stage::Login, GreeterEvent::LoginOver { authenticated, result }) => {
                self.finish_login(authenticated, result)
            },
            (Stage::Report, GreeterEvent::Reported) => (
                self.failures,
                Stage::Username,
                ask_username(None),
            ),
            _ => {
                return None;
            },
        };
        self.failures = count;
        self.stage = stage;
        Some(action)
    }
}

/// A greeter that has just begun.
pub open spec fn fresh(sessions: Seq<SessionView>) -> GreeterView {
    GreeterView { sessions, failures: 0, stage: StageView::Username }
}

/// The greeter after a run of events, and what it did on them. An event that it
/// does not wait for is passed over.
pub open spec fn greeter_run(sessions: Seq<SessionView>, events: Seq<GreeterEventView>) -> (
    GreeterView,
    Seq<GreeterActionView>,
)
    decreases events.len(),
{
    if events.len() == 0 {
        (fresh(sessions), seq![])
    } else {
        let (before, done) = greeter_run(sessions, events.drop_last());
        match greeter_reaction(before, events.last()) {
            Some((next, action)) => (next, done.push(action)),
            None => (before, done),
        }
    }
}

/// Whether `name` can be a user name: not empty, and without white space at
/// either end.
pub open spec fn is_username(name: Seq<char>) -> bool {
    name.len() > 0 && !whitespace(name[0]) && !whitespace(name.last())
}

/// Whether `choice` can be made among the sessions: one of them or, where there
/// are none, the login shell.
pub open spec fn is_offered(sessions: Seq<SessionView>, choice: ChoiceView) -> bool {
    match choice {
        ChoiceView::Desktop(session) => sessions.contains(session),
        ChoiceView::Shell => sessions.len() == 0,
    }
}

proof fn lemma_greeter_run(sessions: Seq<SessionView>, events: Seq<GreeterEventView>)
    ensures
        ({
            let (now, done) = greeter_run(sessions, events);
            &&& now.sessions == sessions
            &&& now.stage matches StageView::Session { username } ==> is_username(username)
                && sessions.len() > 1
            &&& forall|k: int|
                0 <= k < done.len() ==> (#[trigger] done[k] matches GreeterActionView::LogIn {
                    username,
                    choice,
                    ..
                } ==> is_username(username) && is_offered(sessions, choice))
            &&& forall|k: int|
                0 <= k < done.len() && #[trigger] done[k] is Exit ==> k == done.len() - 1
                    && now.stage == StageView::Exited
        }),
    decreases events.len(),
{
    if events.len() > 0 {
        lemma_greeter_run(sessions, events.drop_last());
        let (before, did) = greeter_run(sessions, events.drop_last());
        let (now, done) = greeter_run(sessions, events);
        match (before.stage, events.last()) {
            (StageView::Username, GreeterEventView::Line(Some(line))) => {
                lemma_trimmed_ends(line);
                if sessions.len() == 1 {
                    assert(sessions.contains(sessions[0]));
                }
            },
            (StageView::Session { username }, GreeterEventView::Line(Some(answer))) => {
                law_picks_from_the_menu(answer, sessions.len());
                match picked(answer, sessions.len()) {
                    Some(i) => {
                        assert(sessions.contains(sessions[i]));
                    },
                    None => {},
                }
            },
            _ => {},
        }
        match greeter_reaction(before, events.last()) {
            Some((next, action)) => {
                assert(done =~= did.push(action));
            },
            None => {},
        }
    }
}

/// Every login is for a user name that is not empty and has no white space at
/// its ends, and into a session that was offered; into the login shell only
/// where no session was.
pub proof fn law_logins_are_as_offered(
    sessions: Seq<SessionView>,
    events: Seq<GreeterEventView>,
    k: int,
)
    requires
        0 <= k < greeter_run(sessions, events).1.len(),
    ensures
        greeter_run(sessions, events).1[k] matches GreeterActionView::LogIn {
            username,
            choice,
            ..
        } ==> is_username(username) && is_offered(sessions, choice),
{
    lemma_greeter_run(sessions, events);
}

/// Nothing is done after the greeter exits.
pub proof fn law_exit_is_last(
    sessions: Seq<SessionView>,
    events: Seq<GreeterEventView>,
    k: int,
)
    requires
        0 <= k < greeter_run(sessions, events).1.len(),
        greeter_run(sessions, events).1[k] is Exit,
    ensures
        k == greeter_run(sessions, events).1.len() - 1,
{
    lemma_greeter_run(sessions, events);
}

/// The greeter exits only when a session was started or, while it asks for a
/// user name, when there is no more input.
pub proof fn law_exit_has_a_reason(greeter: GreeterView, event: GreeterEventView)
    requires
        greeter_reaction(greeter, event) matches Some((_, action)) && action is Exit,
    ensures
        event == GreeterEventView::Line(None) || (event matches GreeterEventView::LoginOver {
            result,
            ..
        } && result == ResultView::Ended(OutcomeView::Started)),
        event == GreeterEventView::Line(None) ==> greeter.stage == StageView::Username,
{
}

/// A login that does not start a session is reported, and the greeter asks for a
/// user name again.
pub proof fn law_failure_leads_back(greeter: GreeterView, authenticated: bool, result: ResultView)
    requires
        greeter.stage == StageView::Login,
        result != ResultView::Ended(OutcomeView::Started),
    ensures
        match greeter_reaction(greeter, GreeterEventView::LoginOver { authenticated, result }) {
            Some((reporting, report)) => {
                &&& report is Report
                &&& greeter_reaction(reporting, GreeterEventView::Reported) == Some(
                    (
                        GreeterView { stage: StageView::Username, ..reporting },
                        ask_for_user(None),
                    ),
                )
            },
            None => false,
        },
{
}

/// Without sessions a user is logged into the login shell, and with one session
/// into that one; neither asks for more than the user name.
pub proof fn law_no_question_without_a_choice(greeter: GreeterView, line: Seq<char>)
    requires
        greeter.stage == StageView::Username,
        greeter.sessions.len() <= 1,
        username_on(line) is Some,
    ensures
        greeter_reaction(greeter, GreeterEventView::Line(Some(line))) matches Some((_, action))
            && action matches GreeterActionView::LogIn { username, choice, .. }
            && Some(username) == username_on(line) && choice == if greeter.sessions.len() == 0 {
            ChoiceView::Shell
        } else {
            ChoiceView::Desktop(greeter.sessions[0])
        },
{
}

/// With more than one session the user is asked which one, by a menu that lists
/// them all, before any login.
pub proof fn law_a_choice_is_asked(greeter: GreeterView, line: Seq<char>)
    requires
        greeter.stage == StageView::Username,
        greeter.sessions.len() > 1,
        username_on(line) is Some,
    ensures
        greeter_reaction(greeter, GreeterEventView::Line(Some(line))) matches Some((next, action))
            && next.stage == (StageView::Session { username: username_on(line)->0 }) && action == (
        GreeterActionView::AskSession {
            menu: menu_lines(greeter.sessions),
            prompt: menu_prompt(greeter.sessions.len()),
        }),
{
}

/// Whether greetd turned a login down or failed to start its session.
pub open spec fn is_retry(result: ResultView) -> bool {
    result matches ResultView::Ended(outcome) && outcome is Retry
}

/// A login in which the user was authenticated clears the count of failures;
/// one that failed without that adds to it, and the pause grows with the count.
/// A conversation that broke off does not count.
pub proof fn law_failures_are_consecutive(
    greeter: GreeterView,
    authenticated: bool,
    result: ResultView,
)
    requires
        greeter.stage == StageView::Login,
    ensures
        greeter_reaction(
            greeter,
            GreeterEventView::LoginOver { authenticated, result },
        ) matches Some((next, action)) && {
            &&& authenticated ==> next.failures <= 1
            &&& !authenticated && result is Broken ==> next.failures == greeter.failures
            &&& !authenticated && is_retry(result) ==> next.failures == one_more(greeter.failures)
            &&& is_retry(result) ==> action->millis == pause(next.failures)
        },
{
}

/// Failures are counted across users and sessions: nothing but the outcome of a
/// login changes the count.
pub proof fn law_only_logins_count(greeter: GreeterView, event: GreeterEventView)
    requires
        !(event is LoginOver),
    ensures
        greeter_reaction(greeter, event) matches Some((next, _)) ==> next.failures
            == greeter.failures,
{
}

/// No report is shown for less than the base pause or more than the longest one.
pub proof fn law_report_lasts(greeter: GreeterView, event: GreeterEventView)
    ensures
        greeter_reaction(greeter, event) matches Some((_, action)) ==> action is Report
            ==> BASE_PAUSE <= action->millis <= MAX_BACKOFF,
{
}

/// The line typed for the user name names the user, but for the white space around
/// it: without sessions that user is logged into the login shell, with one session
/// into that one, which is named, and with more the menu is shown.
pub proof fn law_line_names_the_user(
    greeter: GreeterView,
    before: Seq<char>,
    text: Seq<char>,
    after: Seq<char>,
)
    requires
        forall|i: int| 0 <= i < before.len() ==> whitespace(#[trigger] before[i]),
        forall|i: int| 0 <= i < after.len() ==> whitespace(#[trigger] after[i]),
        text.len() > 0,
        !whitespace(text[0]),
        !whitespace(text.last()),
        greeter.stage == StageView::Username,
    ensures
        greeter_reaction(
            greeter,
            GreeterEventView::Line(Some(before + text + after)),
        ) matches Some((next, action)) && {
            let sessions = greeter.sessions;
            &&& next.sessions == sessions
            &&& next.failures == greeter.failures
            &&& sessions.len() == 0 ==> next.stage == StageView::Login && action == (
            GreeterActionView::LogIn {
                announce: None,
                username: text,
                choice: ChoiceView::Shell,
            })
            &&& sessions.len() == 1 ==> next.stage == StageView::Login && action == (
            GreeterActionView::LogIn {
                announce: Some("session: "@ + sessions[0].name),
                username: text,
                choice: ChoiceView::Desktop(sessions[0]),
            })
            &&& sessions.len() > 1 ==> next.stage == (StageView::Session { username: text })
                && action is AskSession && selection_of(sessions) == (SelectionView::Ask {
                menu: action->menu,
                prompt: action->AskSession_prompt,
            })
        },
{
    law_trimmed_is_what_stands_between(before, text, after);
}

/// A blank line in place of a user name is asked for again.
pub proof fn law_blank_line_is_asked_again(greeter: GreeterView, line: Seq<char>)
    requires
        forall|i: int| 0 <= i < line.len() ==> whitespace(#[trigger] line[i]),
        greeter.stage == StageView::Username,
    ensures
        greeter_reaction(greeter, GreeterEventView::Line(Some(line))) == Some(
            (greeter, GreeterActionView::AskUsername { notice: None, prompt: "login: "@ }),
        ),
{
    law_blank_is_trimmed_away(line);
}

/// The end of input ends the program where a user name is asked for, on a new
/// line; at the menu it leads back to the user name.
pub proof fn law_end_of_input(greeter: GreeterView)
    ensures
        greeter.stage == StageView::Username ==> greeter_reaction(
            greeter,
            GreeterEventView::Line(None),
        ) == Some(
            (
                GreeterView { stage: StageView::Exited, ..greeter },
                GreeterActionView::Exit { new_line: true },
            ),
        ),
        greeter.stage is Session ==> greeter_reaction(greeter, GreeterEventView::Line(None))
            == Some(
            (
                GreeterView { stage: StageView::Username, ..greeter },
                GreeterActionView::AskUsername { notice: None, prompt: "login: "@ },
            ),
        ),
{
}

/// The number of a session, whatever white space stands around it, logs the user
/// who was named before into that session. Any other text is turned down with a
/// notice, and leads back to the user name.
pub proof fn law_number_logs_in(
    greeter: GreeterView,
    username: Seq<char>,
    before: Seq<char>,
    text: Seq<char>,
    after: Seq<char>,
)
    requires
        forall|i: int| 0 <= i < before.len() ==> whitespace(#[trigger] before[i]),
        forall|i: int| 0 <= i < after.len() ==> whitespace(#[trigger] after[i]),
        text.len() > 0,
        !whitespace(text[0]),
        !whitespace(text.last()),
        greeter.stage == (StageView::Session { username }),
    ensures
        ({
            let n = greeter.sessions.len();
            let valid = number(text) matches Some(k) && 1 <= k <= n;
            greeter_reaction(greeter, GreeterEventView::Line(Some(before + text + after))) == Some(
                if valid {
                    (
                        GreeterView { stage: StageView::Login, ..greeter },
                        GreeterActionView::LogIn {
                            announce: None,
                            username,
                            choice: ChoiceView::Desktop(greeter.sessions[number(text)->0 - 1]),
                        },
                    )
                } else {
                    (
                        GreeterView { stage: StageView::Username, ..greeter },
                        GreeterActionView::AskUsername {
                            notice: Some("not a valid choice, try again"@),
                            prompt: "login: "@,
                        },
                    )
                },
            )
        }),
{
    law_answer_picks_by_number(before, text, after, greeter.sessions.len());
}

/// A blank answer to the menu logs the user into the first session.
pub proof fn law_blank_answer_logs_in(
    greeter: GreeterView,
    username: Seq<char>,
    answer: Seq<char>,
)
    requires
        forall|i: int| 0 <= i < answer.len() ==> whitespace(#[trigger] answer[i]),
        greeter.stage == (StageView::Session { username }),
    ensures
        greeter_reaction(greeter, GreeterEventView::Line(Some(answer))) == Some(
            (
                GreeterView { stage: StageView::Login, ..greeter },
                GreeterActionView::LogIn {
                    announce: None,
                    username,
                    choice: ChoiceView::Desktop(greeter.sessions[0]),
                },
            ),
        ),
{
    law_blank_answer_picks_the_first(answer, greeter.sessions.len());
}

/// A session that was started ends the program, whatever happened before: however
/// many logins failed, and whichever sessions are offered.
pub proof fn law_started_session_ends_the_greeter(greeter: GreeterView, authenticated: bool)
    requires
        greeter.stage == StageView::Login,
    ensures
        greeter_reaction(
            greeter,
            GreeterEventView::LoginOver {
                authenticated,
                result: ResultView::Ended(OutcomeView::Started),
            },
        ) matches Some((next, action)) && next.stage == StageView::Exited
            && next.sessions == greeter.sessions && action == (GreeterActionView::Exit {
            new_line: false,
        }),
{
}

/// A login that failed is reported in its own words, for as long as the failures
/// in a row call for. It is one more of them, or the first where the user was
/// authenticated in it; they are counted as far as the counter goes.
pub proof fn law_failed_login_is_reported(
    greeter: GreeterView,
    authenticated: bool,
    text: Seq<char>,
)
    requires
        greeter.stage == StageView::Login,
    ensures
        greeter_reaction(
            greeter,
            GreeterEventView::LoginOver {
                authenticated,
                result: ResultView::Ended(OutcomeView::Retry(text)),
            },
        ) matches Some((next, action)) && {
            &&& next.sessions == greeter.sessions
            &&& next.stage == StageView::Report
            &&& authenticated ==> next.failures == 1
            &&& !authenticated && greeter.failures < u32::MAX ==> next.failures == greeter.failures
                + 1
            &&& !authenticated && greeter.failures >= u32::MAX ==> next.failures
                == greeter.failures
            &&& action == (GreeterActionView::Report {
                text: "\n"@ + text,
                error: false,
                millis: pause(next.failures),
            })
        },
{
}

/// A conversation that broke off is reported with its cause on the error stream,
/// for two seconds.
pub proof fn law_broken_conversation_is_reported(
    greeter: GreeterView,
    authenticated: bool,
    text: Seq<char>,
)
    requires
        greeter.stage == StageView::Login,
    ensures
        greeter_reaction(
            greeter,
            GreeterEventView::LoginOver { authenticated, result: ResultView::Broken(text) },
        ) == Some(
            (
                GreeterView {
                    stage: StageView::Report,
                    failures: if authenticated {
                        0
                    } else {
                        greeter.failures
                    },
                    ..greeter
                },
                GreeterActionView::Report {
                    text: "\ncould not talk to greetd: "@ + text,
                    error: true,
                    millis: 2_000,
                },
            ),
        ),
{
}

/// After a report the user name is asked for, and nothing else has changed.
pub proof fn law_report_leads_to_the_user_name(greeter: GreeterView)
    requires
        greeter.stage == StageView::Report,
    ensures
        greeter_reaction(greeter, GreeterEventView::Reported) == Some(
            (
                GreeterView { stage: StageView::Username, ..greeter },
                GreeterActionView::AskUsername { notice: None, prompt: "login: "@ },
            ),
        ),
{
}

/// The greeter takes in what it waits for and nothing else: lines while it asks,
/// the end of a login, the end of a report, and nothing once it has exited.
pub proof fn law_greeter_keeps_its_turns(greeter: GreeterView, event: GreeterEventView)
    ensures
        greeter_reaction(greeter, event) is Some <==> match greeter.stage {
            StageView::Username => event is Line,
            StageView::Session { .. } => event is Line,
            StageView::Login => event is LoginOver,
            StageView::Report => event is Reported,
            StageView::Exited => false,
        },
{
}

/// The first question asks for the user name, with the usual prompt.
pub proof fn law_user_is_asked_with_the_usual_prompt(notice: Option<Seq<char>>)
    ensures
        ask_for_user(notice) == (GreeterActionView::AskUsername { notice, prompt: "login: "@ }),
{
}

/// Actions and events of the greeter are seen with all that they hold.
pub proof fn law_greeter_is_seen_whole<'a>(
    text: String,
    other: String,
    menu: Vec<String>,
    choice: Choice<'a>,
    outcome: LoginOutcome,
    result: LoginResult,
    flag: bool,
    millis: u64,
)
    ensures
        error_text(GreeterError::Io(text)) == text@,
        error_text(GreeterError::Codec(text)) == text@,
        LoginResult::Ended(outcome)@ == ResultView::Ended(outcome@),
        LoginResult::Broken(GreeterError::Io(text))@ == ResultView::Broken(text@),
        LoginResult::Broken(GreeterError::Codec(text))@ == ResultView::Broken(text@),
        GreeterEvent::Line(Some(text))@ == GreeterEventView::Line(Some(text@)),
        GreeterEvent::Line(None)@ == GreeterEventView::Line(None),
        (GreeterEvent::LoginOver { authenticated: flag, result })@ == (
        GreeterEventView::LoginOver { authenticated: flag, result: result@ }),
        GreeterEvent::Reported@ == GreeterEventView::Reported,
        (GreeterAction::AskUsername { notice: Some(other), prompt: text })@ == (
        GreeterActionView::AskUsername { notice: Some(other@), prompt: text@ }),
        (GreeterAction::AskUsername { notice: None, prompt: text })@ == (
        GreeterActionView::AskUsername { notice: None, prompt: text@ }),
        (GreeterAction::AskSession { menu, prompt: text })@ == (GreeterActionView::AskSession {
            menu: Seq::new(menu@.len(), |i: int| menu@[i]@),
            prompt: text@,
        }),
        (GreeterAction::LogIn { announce: Some(other), username: text, choice })@ == (
        GreeterActionView::LogIn { announce: Some(other@), username: text@, choice: choice@ }),
        (GreeterAction::LogIn { announce: None, username: text, choice })@ == (
        GreeterActionView::LogIn { announce: None, username: text@, choice: choice@ }),
        (GreeterAction::Report { text, error: flag, millis })@ == (GreeterActionView::Report {
            text: text@,
            error: flag,
            millis: millis as nat,
        }),
        (GreeterAction::Exit { new_line: flag })@ == (GreeterActionView::Exit { new_line: flag }),
{
    assert(views(menu@) =~= Seq::new(menu@.len(), |i: int| menu@[i]@));
}

} // verus!
