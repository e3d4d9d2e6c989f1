//! One login: the conversation with greetd from the user name to a started
//! session.
//!
//! A [`LoginAttempt`] decides what to do next. Whoever holds it carries each
//! [`LoginAction`] out and hands back what came of it as an [`Event`].

use crate::protocol::{AuthMessageType, ErrorType, Request, RequestView, Response, ResponseView};
use crate::selection::{Choice, ChoiceView};
use crate::session::{copy_words, kind_env, SessionKind, SessionView};
use crate::text::{view_option, views};
use vstd::prelude::*;
use vstd::string::StringExecFns;

verus! {

/// How one login ended.
#[derive(Debug)]
pub enum LoginOutcome {
    /// The session was started: the greeter is done.
    Started,
    /// Authentication or the start failed: the text to show the user.
    Retry(String),
}

/// A text that greetd asks to be shown.
#[derive(Debug)]
pub enum Notice {
    /// For the screen.
    Info(String),
    /// For the error stream.
    Error(String),
}

/// Something to do for a login.
#[derive(Debug)]
pub enum LoginAction {
    /// Show the notice if there is one, send the request, where `scrub` is set
    /// overwrite the text in it once it is sent, and read the response.
    Exchange { notice: Option<Notice>, request: Request, scrub: bool },
    /// Ask the user for a line, without echo where `secret` is set.
    Ask { prompt: String, secret: bool },
    /// Look up the login shell of the user.
    LookUpShell { username: String },
    /// The login is over. Where `cancel` is set send a cancellation, whatever
    /// comes of it; then write `log` to the error stream.
    End { cancel: bool, log: Option<String>, outcome: LoginOutcome },
}

/// What came of an action.
#[derive(Debug)]
pub enum Event {
    /// The response to a request.
    Response(Response),
    /// The line that the user typed.
    Reply(String),
    /// The login shell of the user, if it is known.
    Shell(Option<String>),
}

/// What a login waits for.
#[derive(Clone, Copy, Debug, PartialEq, Eq, Structural)]
pub enum LoginState {
    /// The response to the user name or to an answer.
    Authenticating,
    /// The answer of the user.
    Answering { secret: bool },
    /// The login shell of the user, who is authenticated.
    LookingUpShell,
    /// The response to the start of the session.
    Starting,
    /// Nothing more.
    Ended { authenticated: bool },
}

/// One login.
#[derive(Debug)]
pub struct LoginAttempt<'a> {
    username: String,
    choice: Choice<'a>,
    state: LoginState,
}

/// What a [`LoginOutcome`] holds.
#[verifier::ext_equal]
pub enum OutcomeView {
    Started,
    Retry(Seq<char>),
}

/// What a [`Notice`] holds.
#[verifier::ext_equal]
pub enum NoticeView {
    Info(Seq<char>),
    Error(Seq<char>),
}

/// What a [`LoginAction`] holds.
#[verifier::ext_equal]
pub enum ActionView {
    Exchange { notice: Option<NoticeView>, request: RequestView, scrub: bool },
    Ask { prompt: Seq<char>, secret: bool },
    LookUpShell { username: Seq<char> },
    End { cancel: bool, log: Option<Seq<char>>, outcome: OutcomeView },
}

/// What an [`Event`] holds.
#[verifier::ext_equal]
pub enum EventView {
    Response(ResponseView),
    Reply(Seq<char>),
    Shell(Option<Seq<char>>),
}

/// What a [`LoginAttempt`] holds.
#[verifier::ext_equal]
pub struct LoginView {
    pub username: Seq<char>,
    pub choice: ChoiceView,
    pub state: LoginState,
}

impl View for LoginOutcome {
    type V = OutcomeView;

    open spec fn view(&self) -> OutcomeView {
        match self {
            LoginOutcome::Started => OutcomeView::Started,
            LoginOutcome::Retry(text) => OutcomeView::Retry(text@),
        }
    }
}

impl View for Notice {
    type V = NoticeView;

    open spec fn view(&self) -> NoticeView {
        match self {
            Notice::Info(text) => NoticeView::Info(text@),
            Notice::Error(text) => NoticeView::Error(text@),
        }
    }
}

impl View for LoginAction {
    type V = ActionView;

    open spec fn view(&self) -> ActionView {
        match self {
            LoginAction::Exchange { notice, request, scrub } => ActionView::Exchange {
                notice: match notice {
                    Some(n) => Some(n@),
                    None => None,
                },
                request: request@,
                scrub: *scrub,
            },
            LoginAction::Ask { prompt, secret } => ActionView::Ask {
                prompt: prompt@,
                secret: *secret,
            },
            LoginAction::LookUpShell { username } => ActionView::LookUpShell {
                username: username@,
            },
            LoginAction::End { cancel, log, outcome } => ActionView::End {
                cancel: *cancel,
                log: view_option(*log),
                outcome: outcome@,
            },
        }
    }
}

impl View for Event {
    type V = EventView;

    open spec fn view(&self) -> EventView {
        match self {
            Event::Response(response) => EventView::Response(response@),
            Event::Reply(text) => EventView::Reply(text@),
            Event::Shell(shell) => EventView::Shell(view_option(*shell)),
        }
    }
}

impl<'a> View for LoginAttempt<'a> {
    type V = LoginView;

    closed spec fn view(&self) -> LoginView {
        LoginView { username: self.username@, choice: self.choice@, state: self.state }
    }
}

/// Sends a request and waits for the response.
pub open spec fn exchange(request: RequestView) -> ActionView {
    ActionView::Exchange { notice: None, request, scrub: false }
}

/// Answers a message that asks for nothing, after showing it.
pub open spec fn acknowledge(notice: NoticeView) -> ActionView {
    ActionView::Exchange {
        notice: Some(notice),
        request: RequestView::PostAuthMessageResponse { response: None },
        scrub: false,
    }
}

/// The end of a login that failed, with the text for the user.
pub open spec fn failed(text: Seq<char>) -> ActionView {
    ActionView::End { cancel: false, log: None, outcome: OutcomeView::Retry(text) }
}

/// What an error response during authentication leads to. The description of an
/// error that is not one of authentication goes to the log only: the screen is
/// visible to anyone at the console.
pub open spec fn refused(error_type: ErrorType, description: Seq<char>) -> ActionView {
    match error_type {
        ErrorType::AuthError => ActionView::End {
            cancel: true,
            log: None,
            outcome: OutcomeView::Retry("Login incorrect"@),
        },
        ErrorType::Error => ActionView::End {
            cancel: true,
            log: Some("greetd error: "@ + description),
            outcome: OutcomeView::Retry("an internal error occurred, see system logs"@),
        },
    }
}

/// What a message during authentication leads to, and what is waited for then.
pub open spec fn relayed(kind: AuthMessageType, message: Seq<char>) -> (LoginState, ActionView) {
    match kind {
        AuthMessageType::Visible => (
            LoginState::Answering { secret: false },
            ActionView::Ask { prompt: message + " "@, secret: false },
        ),
        AuthMessageType::Secret => (
            LoginState::Answering { secret: true },
            ActionView::Ask { prompt: message + " "@, secret: true },
        ),
        AuthMessageType::Info => (
            LoginState::Authenticating,
            acknowledge(NoticeView::Info(message)),
        ),
        AuthMessageType::Error => (
            LoginState::Authenticating,
            acknowledge(NoticeView::Error(message)),
        ),
    }
}

/// The command that starts the login shell.
pub open spec fn shell_command(shell: Option<Seq<char>>) -> Seq<Seq<char>> {
    match shell {
        Some(program) => seq![program, "-l"@],
        None => seq!["/bin/sh"@, "-l"@],
    }
}

/// What a login does once the user is authenticated.
pub open spec fn launched(login: LoginView) -> (LoginState, ActionView) {
    match login.choice {
        ChoiceView::Desktop(session) => (
            LoginState::Starting,
            exchange(
                RequestView::StartSession { cmd: session.cmd, env: seq![kind_env(session.kind)] },
            ),
        ),
        ChoiceView::Shell => (
            LoginState::LookingUpShell,
            ActionView::LookUpShell { username: login.username },
        ),
    }
}

/// What the response to the start of a session leads to.
pub open spec fn concluded(response: ResponseView) -> ActionView {
    match response {
        ResponseView::Success => ActionView::End {
            cancel: false,
            log: None,
            outcome: OutcomeView::Started,
        },
        ResponseView::Error { description, .. } => failed(
            "could not start session: "@ + description,
        ),
        ResponseView::AuthMessage { .. } => failed(
            "unexpected auth prompt after successful login"@,
        ),
    }
}

/// What a login does on an event, and what it waits for then. `None` for an
/// event that it does not wait for.
pub open spec fn reaction(login: LoginView, event: EventView) -> Option<(LoginState, ActionView)> {
    match (login.state, event) {
        (LoginState::Authenticating, EventView::Response(response)) => Some(
            match response {
                ResponseView::Success => launched(login),
                ResponseView::Error { error_type, description } => (
                    LoginState::Ended { authenticated: false },
                    refused(error_type, description),
                ),
                ResponseView::AuthMessage { auth_message_type, auth_message } => relayed(
                    auth_message_type,
                    auth_message,
                ),
            },
        ),
        (LoginState::Answering { secret }, EventView::Reply(text)) => Some(
            (
                LoginState::Authenticating,
                ActionView::Exchange {
                    notice: None,
                    request: RequestView::PostAuthMessageResponse { response: Some(text) },
                    scrub: secret,
                },
            ),
        ),
        (LoginState::LookingUpShell, EventView::Shell(shell)) => Some(
            (
                LoginState::Starting,
                exchange(RequestView::StartSession { cmd: shell_command(shell), env: seq![] }),
            ),
        ),
        (LoginState::Starting, EventView::Response(response)) => Some(
            (LoginState::Ended { authenticated: true }, concluded(response)),
        ),
        _ => None,
    }
}

/// The login with what it waits for replaced.
pub open spec fn moved(login: LoginView, state: LoginState) -> LoginView {
    LoginView { username: login.username, choice: login.choice, state }
}

/// Whether the user has been authenticated.
pub open spec fn is_authenticated(state: LoginState) -> bool {
    match state {
        LoginState::LookingUpShell => true,
        LoginState::Starting => true,
        LoginState::Ended { authenticated } => authenticated,
        _ => false,
    }
}

/// A login that has just begun.
pub open spec fn begun(username: Seq<char>, choice: ChoiceView) -> LoginView {
    LoginView { username, choice, state: LoginState::Authenticating }
}

/// Begins a login: the attempt, and the first thing to do.
pub fn attempt_login<'a>(username: &str, choice: Choice<'a>) -> (r: (
    LoginAttempt<'a>,
    LoginAction,
))
    ensures
        r.0@ == begun(username@, choice@),
        r.1@ == exchange(RequestView::CreateSession { username: username@ }),
{
    let attempt = LoginAttempt {
        username: username.to_owned(),
        choice,
        state: LoginState::Authenticating,
    };
    let request = Request::CreateSession { username: username.to_owned() };
    (attempt, LoginAction::Exchange { notice: None, request, scrub: false })
}

/// The end of a login that failed, with the text for the user.
fn fail(text: String) -> (r: LoginAction)
    ensures
        r@ == failed(text@),
{
    LoginAction::End { cancel: false, log: None, outcome: LoginOutcome::Retry(text) }
}

/// The end of a login that greetd refused.
fn refuse(error_type: ErrorType, description: String) -> (r: LoginAction)
    ensures
        r@ == refused(error_type, description@),
{
    match error_type {
        ErrorType::AuthError => LoginAction::End {
            cancel: true,
            log: None,
            outcome: LoginOutcome::Retry("Login incorrect".to_owned()),
        },
        ErrorType::Error => {
            let mut log = "greetd error: ".to_owned();
            log.append(description.as_str());
            LoginAction::End {
                cancel: true,
                log: Some(log),
                outcome: LoginOutcome::Retry(
                    "an internal error occurred, see system logs".to_owned(),
                ),
            }
        },
    }
}

/// Passes a message of greetd on to the user.
fn relay(kind: AuthMessageType, message: String) -> (r: (LoginState, LoginAction))
    ensures
        (r.0, r.1@) == relayed(kind, message@),
{
    match kind {
        AuthMessageType::Visible => {
            let prompt = message.concat(" ");
            (LoginState::Answering { secret: false }, LoginAction::Ask { prompt, secret: false })
        },
        AuthMessageType::Secret => {
            let prompt = message.concat(" ");
            (LoginState::Answering { secret: true }, LoginAction::Ask { prompt, secret: true })
        },
        AuthMessageType::Info => {
            let request = Request::PostAuthMessageResponse { response: None };
            let notice = Some(Notice::Info(message));
            (
                LoginState::Authenticating,
                LoginAction::Exchange { notice, request, scrub: false },
            )
        },
        AuthMessageType::Error => {
            let request = Request::PostAuthMessageResponse { response: None };
            let notice = Some(Notice::Error(message));
            (
                LoginState::Authenticating,
                LoginAction::Exchange { notice, request, scrub: false },
            )
        },
    }
}

/// The request that starts the login shell.
fn start_shell(shell: Option<String>) -> (r: LoginAction)
    ensures
        r@ == exchange(
            RequestView::StartSession { cmd: shell_command(view_option(shell)), env: seq![] },
        ),
{
    let program = match shell {
        Some(program) => program,
        None => "/bin/sh".to_owned(),
    };
    let mut cmd: Vec<String> = Vec::new();
    cmd.push(program);
    cmd.push("-l".to_owned());
    let env: Vec<String> = Vec::new();
    proof {
        assert(views(cmd@) =~= shell_command(view_option(shell)));
        assert(views(env@) =~= seq![]);
    }
    LoginAction::Exchange {
        notice: None,
        request: Request::StartSession { cmd, env },
        scrub: false,
    }
}

/// The end of a login by the response to the start of the session.
fn conclude(response: Response) -> (r: LoginAction)
    ensures
        r@ == concluded(response@),
{
    match response {
        Response::Success => LoginAction::End {
            cancel: false,
            log: None,
            outcome: LoginOutcome::Started,
        },
        Response::Error { description, .. } => {
            let mut text = "could not start session: ".to_owned();
            text.append(description.as_str());
            fail(text)
        },
        Response::AuthMessage { .. } => fail(
            "unexpected auth prompt after successful login".to_owned(),
        ),
    }
}

impl<'a> LoginAttempt<'a> {
    /// Whether the user has been authenticated.
    pub fn authenticated(&self) -> (r: bool)
        ensures
            r == is_authenticated(self@.state),
    {
        match self.state {
            LoginState::LookingUpShell => true,
            LoginState::Starting => true,
            LoginState::Ended { authenticated } => authenticated,
            _ => false,
        }
    }

    /// What to do once the user is authenticated.
    fn launch(&self) -> (r: (LoginState, LoginAction))
        ensures
            (r.0, r.1@) == launched(self@),
    {
        match &self.choice {
            Choice::Desktop(session) => {
                let request = Request::StartSession {
                    cmd: copy_words(&session.cmd),
                    env: session.env(),
                };
                (
                    LoginState::Starting,
                    LoginAction::Exchange { notice: None, request, scrub: false },
                )
            },
            Choice::Shell => (
                LoginState::LookingUpShell,
                LoginAction::LookUpShell { username: self.username.clone() },
            ),
        }
    }

    /// Takes in what came of the last action and decides what to do next. An
    /// event that the login does not wait for gives `None` and changes nothing.
    pub fn step(&mut self, event: Event) -> (r: Option<LoginAction>)
        ensures
            match reaction(old(self)@, event@) {
                Some((state, action)) => {
                    &&& r matches Some(a) && a@ == action
                    &&& final(self)@ == moved(old(self)@, state)
                },
                None => r is None && final(self)@ == old(self)@,
            },
    {
        let (state, action) = match (self.state, event) {
            (LoginState::Authenticating, Event::Response(response)) => match response {
                Response::Success => self.launch(),
                Response::Error { error_type, description } => (
                    LoginState::Ended { authenticated: false },
                    refuse(error_type, description),
                ),
                Response::AuthMessage { auth_message_type, auth_message } => relay(
                    auth_message_type,
                    auth_message,
                ),
            },
            (LoginState::Answering { secret }, Event::Reply(text)) => {
                let request = Request::PostAuthMessageResponse { response: Some(text) };
                (
                    LoginState::Authenticating,
                    LoginAction::Exchange { notice: None, request, scrub: secret },
                )
            },
            (LoginState::LookingUpShell, Event::Shell(shell)) => (
                LoginState::Starting,
                start_shell(shell),
            ),
            (LoginState::Starting, Event::Response(response)) => (
                LoginState::Ended { authenticated: true },
                conclude(response),
            ),
            _ => {
                return None;
            },
        };
        self.state = state;
        Some(action)
    }
}

/// The login after a run of events, and what it did on them. An event that it
/// does not wait for is passed over.
pub open spec fn run(login: LoginView, events: Seq<EventView>) -> (LoginView, Seq<ActionView>)
    decreases events.len(),
{
    if events.len() == 0 {
        (login, seq![])
    } else {
        let (before, done) = run(login, events.drop_last());
        match reaction(before, events.last()) {
            Some((state, action)) => (moved(before, state), done.push(action)),
            None => (before, done),
        }
    }
}

/// Whether an action starts a session.
pub open spec fn starts(action: ActionView) -> bool {
    action matches ActionView::Exchange { request, .. } && request is StartSession
}

/// Whether an action ends a login with a started session.
pub open spec fn reports_start(action: ActionView) -> bool {
    action matches ActionView::End { outcome, .. } && outcome is Started
}

/// Whether `event` is the one on which a login did what it did as number `k`.
pub open spec fn done_on(login: LoginView, events: Seq<EventView>, k: int, event: EventView) -> bool {
    exists|i: int|
        0 <= i < events.len() && #[trigger] events[i] == event && run(login, events.take(i)).1.len()
            == k && run(login, events.take(i + 1)).1.len() == k + 1
}

/// Whether a start of a session runs what was chosen: the command of the session
/// and the entry for its kind, or the shell that had just been looked up, as a
/// login shell.
pub open spec fn starts_chosen(login: LoginView, events: Seq<EventView>, k: int) -> bool {
    &&& run(login, events).1[k] matches ActionView::Exchange { request, .. }
    &&& request matches RequestView::StartSession { cmd, env }
    &&& match login.choice {
        ChoiceView::Desktop(session) => cmd == session.cmd && env == seq![kind_env(session.kind)],
        ChoiceView::Shell => env.len() == 0 && exists|shell: Option<Seq<char>>|
            cmd == shell_command(shell) && #[trigger] done_on(
                login,
                events,
                k,
                EventView::Shell(shell),
            ),
    }
}

/// Whether greetd granted the login before it did what it did as number `k`: it
/// reported success while the login waited for the outcome of authentication.
pub open spec fn granted(login: LoginView, events: Seq<EventView>, k: int) -> bool {
    exists|i: int|
        0 <= i < events.len() && #[trigger] events[i] == EventView::Response(ResponseView::Success)
            && run(login, events.take(i)).0.state == LoginState::Authenticating && run(
            login,
            events.take(i),
        ).1.len() <= k
}

/// Whether what a login did as number `k` answers what it did before: a question
/// is followed by the line that the user typed for it, to be scrubbed if the
/// question was secret, and nothing else is scrubbed.
pub open spec fn answers(login: LoginView, events: Seq<EventView>, k: int) -> bool {
    let question = run(login, events).1[k - 1];
    let answer = run(login, events).1[k];
    &&& question matches ActionView::Ask { secret, .. } ==> exists|text: Seq<char>|
        #[trigger] done_on(login, events, k, EventView::Reply(text)) && answer == (
        ActionView::Exchange {
            notice: None,
            request: RequestView::PostAuthMessageResponse { response: Some(text) },
            scrub: secret,
        })
    &&& answer is Exchange && answer->Exchange_scrub ==> question is Ask && question->Ask_secret
}

proof fn lemma_done_on_still(login: LoginView, events: Seq<EventView>, k: int, event: EventView)
    requires
        events.len() > 0,
        done_on(login, events.drop_last(), k, event),
    ensures
        done_on(login, events, k, event),
{
    let head = events.drop_last();
    let i = choose|i: int|
        0 <= i < head.len() && #[trigger] head[i] == event && run(login, head.take(i)).1.len() == k
            && run(login, head.take(i + 1)).1.len() == k + 1;
    assert(events[i] == head[i]);
    assert(events.take(i) =~= head.take(i));
    assert(events.take(i + 1) =~= head.take(i + 1));
}

proof fn lemma_granted_still(login: LoginView, events: Seq<EventView>, k: int, later: int)
    requires
        events.len() > 0,
        k <= later,
        granted(login, events.drop_last(), k),
    ensures
        granted(login, events, later),
{
    let head = events.drop_last();
    let i = choose|i: int|
        0 <= i < head.len() && #[trigger] head[i] == EventView::Response(ResponseView::Success)
            && run(login, head.take(i)).0.state == LoginState::Authenticating && run(
            login,
            head.take(i),
        ).1.len() <= k;
    assert(events[i] == head[i]);
    assert(events.take(i) =~= head.take(i));
}

proof fn lemma_run(username: Seq<char>, choice: ChoiceView, events: Seq<EventView>)
    ensures
        ({
            let (now, done) = run(begun(username, choice), events);
            &&& now.username == username
            &&& now.choice == choice
            &&& is_authenticated(now.state) ==> granted(
                begun(username, choice),
                events,
                done.len() as int,
            )
            &&& now.state == LoginState::LookingUpShell ==> choice == ChoiceView::Shell
            &&& !is_authenticated(now.state) || now.state == LoginState::LookingUpShell
                ==> forall|k: int| 0 <= k < done.len() ==> !starts(#[trigger] done[k])
            &&& now.state == LoginState::Starting || now.state == (LoginState::Ended {
                authenticated: true,
            }) ==> exists|k: int| 0 <= k < done.len() && starts(#[trigger] done[k])
            &&& forall|k: int|
                0 <= k < done.len() && starts(#[trigger] done[k]) ==> starts_chosen(
                    begun(username, choice),
                    events,
                    k,
                ) && granted(begun(username, choice), events, k)
            &&& forall|j: int, k: int|
                0 <= j < done.len() && 0 <= k < done.len() && starts(#[trigger] done[j]) && starts(
                    #[trigger] done[k],
                ) ==> j == k
            &&& forall|k: int|
                0 <= k < done.len() && reports_start(#[trigger] done[k]) ==> now.state == (
                LoginState::Ended { authenticated: true })
            &&& forall|k: int|
                0 <= k < done.len() && #[trigger] done[k] is End ==> now.state is Ended && k
                    == done.len() - 1
            &&& now.state matches LoginState::Answering { secret } ==> done.len() > 0
                && done.last() is Ask && done.last()->Ask_secret == secret
            &&& !(now.state is Answering) && done.len() > 0 ==> !(done.last() is Ask)
            &&& done.len() > 0 && done[0] is Exchange ==> !done[0]->Exchange_scrub
            &&& forall|k: int|
                0 < k < done.len() ==> #[trigger] answers(begun(username, choice), events, k)
        }),
    decreases events.len(),
{
    if events.len() > 0 {
        let login = begun(username, choice);
        let head = events.drop_last();
        let e = events.last();
        lemma_run(username, choice, head);
        let (before, did) = run(login, head);
        let (now, done) = run(login, events);
        assert(events[events.len() - 1] == e);
        assert(events.take(events.len() - 1) =~= head);
        assert(events.take(events.len() as int) =~= events);
        if is_authenticated(before.state) {
            lemma_granted_still(login, events, did.len() as int, done.len() as int);
        }
        assert forall|k: int| 0 <= k < done.len() && starts(#[trigger] done[k]) implies
            starts_chosen(login, events, k) && granted(login, events, k) by {
            if k < did.len() {
                assert(done[k] == did[k]);
                assert(starts_chosen(login, head, k));
                lemma_granted_still(login, events, k, k);
                if choice == ChoiceView::Shell {
                    let cmd = did[k]->Exchange_request->StartSession_cmd;
                    let shell = choose|shell: Option<Seq<char>>|
                        cmd == shell_command(shell) && #[trigger] done_on(
                            login,
                            head,
                            k,
                            EventView::Shell(shell),
                        );
                    lemma_done_on_still(login, events, k, EventView::Shell(shell));
                }
            } else {
                match (before.state, e) {
                    (LoginState::LookingUpShell, EventView::Shell(shell)) => {
                        lemma_granted_still(login, events, k, k);
                        assert(done_on(login, events, k, EventView::Shell(shell)));
                    },
                    _ => {},
                }
            }
        }
        assert forall|k: int| 0 < k < done.len() implies #[trigger] answers(login, events, k) by {
            assert(done[k - 1] == did[k - 1]);
            if k < did.len() {
                assert(done[k] == did[k]);
                assert(answers(login, head, k));
                if did[k - 1] is Ask {
                    let secret = did[k - 1]->Ask_secret;
                    let text = choose|text: Seq<char>| #[trigger]
                        done_on(login, head, k, EventView::Reply(text)) && did[k] == (
                        ActionView::Exchange {
                            notice: None,
                            request: RequestView::PostAuthMessageResponse { response: Some(text) },
                            scrub: secret,
                        });
                    lemma_done_on_still(login, events, k, EventView::Reply(text));
                }
            } else {
                match (before.state, e) {
                    (LoginState::Answering { secret }, EventView::Reply(text)) => {
                        assert(done_on(login, events, k, EventView::Reply(text)));
                    },
                    _ => {},
                }
            }
        }
        match reaction(before, e) {
            Some((state, action)) => {
                assert(done =~= did.push(action));
                if before.state == LoginState::Starting {
                    let k = choose|k: int| 0 <= k < did.len() && starts(#[trigger] did[k]);
                    assert(starts(done[k]));
                }
                if starts(action) {
                    assert(starts(done[did.len() as int]));
                }
            },
            None => {},
        }
    }
}

/// A session is started only after greetd granted the login.
pub proof fn law_start_needs_grant(
    username: Seq<char>,
    choice: ChoiceView,
    events: Seq<EventView>,
    k: int,
)
    requires
        0 <= k < run(begun(username, choice), events).1.len(),
        starts(run(begun(username, choice), events).1[k]),
    ensures
        granted(begun(username, choice), events, k),
{
    lemma_run(username, choice, events);
}

/// The session that is started is the chosen one: its command and the entry for
/// its kind, or the login shell that had just been looked up.
pub proof fn law_chosen_session_starts(
    username: Seq<char>,
    choice: ChoiceView,
    events: Seq<EventView>,
    k: int,
)
    requires
        0 <= k < run(begun(username, choice), events).1.len(),
        starts(run(begun(username, choice), events).1[k]),
    ensures
        starts_chosen(begun(username, choice), events, k),
{
    lemma_run(username, choice, events);
}

/// A login starts a session at most once.
pub proof fn law_one_start(
    username: Seq<char>,
    choice: ChoiceView,
    events: Seq<EventView>,
    j: int,
    k: int,
)
    requires
        0 <= j < run(begun(username, choice), events).1.len(),
        0 <= k < run(begun(username, choice), events).1.len(),
        starts(run(begun(username, choice), events).1[j]),
        starts(run(begun(username, choice), events).1[k]),
    ensures
        j == k,
{
    lemma_run(username, choice, events);
}

/// A login that reports a started session has asked for its start before.
pub proof fn law_reported_start_was_requested(
    username: Seq<char>,
    choice: ChoiceView,
    events: Seq<EventView>,
    k: int,
)
    requires
        0 <= k < run(begun(username, choice), events).1.len(),
        reports_start(run(begun(username, choice), events).1[k]),
    ensures
        exists|j: int| 0 <= j < k && starts(#[trigger] run(begun(username, choice), events).1[j]),
{
    lemma_run(username, choice, events);
    let done = run(begun(username, choice), events).1;
    assert(done[k] is End);
    let j = choose|j: int| 0 <= j < done.len() && starts(#[trigger] done[j]);
    assert(j != k);
}

/// Nothing is done after the end of a login.
pub proof fn law_end_is_last(
    username: Seq<char>,
    choice: ChoiceView,
    events: Seq<EventView>,
    k: int,
)
    requires
        0 <= k < run(begun(username, choice), events).1.len(),
        run(begun(username, choice), events).1[k] is End,
    ensures
        k == run(begun(username, choice), events).1.len() - 1,
{
    lemma_run(username, choice, events);
}

/// Every question is answered with the line that the user typed for it, as it was
/// typed. The answer to a secret question is ordered to be scrubbed once it is
/// sent, and nothing else is.
pub proof fn law_answers_are_relayed(
    username: Seq<char>,
    choice: ChoiceView,
    events: Seq<EventView>,
    k: int,
)
    requires
        0 < k < run(begun(username, choice), events).1.len(),
    ensures
        answers(begun(username, choice), events, k),
{
    lemma_run(username, choice, events);
}

/// Whatever greetd asks for during authentication, and however often, is put to
/// the user in its own words: questions are asked, other messages are shown and
/// acknowledged, and the login goes on.
pub proof fn law_every_message_is_relayed(
    login: LoginView,
    kind: AuthMessageType,
    message: Seq<char>,
)
    requires
        login.state == LoginState::Authenticating,
    ensures
        ({
            let event = EventView::Response(
                ResponseView::AuthMessage { auth_message_type: kind, auth_message: message },
            );
            reaction(login, event) matches Some((state, action)) && match kind {
                AuthMessageType::Visible => state == (LoginState::Answering { secret: false })
                    && action == (ActionView::Ask { prompt: message + " "@, secret: false }),
                AuthMessageType::Secret => state == (LoginState::Answering { secret: true })
                    && action == (ActionView::Ask { prompt: message + " "@, secret: true }),
                AuthMessageType::Info => state == LoginState::Authenticating && action == (
                ActionView::Exchange {
                    notice: Some(NoticeView::Info(message)),
                    request: RequestView::PostAuthMessageResponse { response: None },
                    scrub: false,
                }),
                AuthMessageType::Error => state == LoginState::Authenticating && action == (
                ActionView::Exchange {
                    notice: Some(NoticeView::Error(message)),
                    request: RequestView::PostAuthMessageResponse { response: None },
                    scrub: false,
                }),
            }
        }),
{
}

/// A refused login is cancelled, and the text shown for it is the same for every
/// description.
pub proof fn law_refusal_text_is_fixed(
    login: LoginView,
    error_type: ErrorType,
    one: Seq<char>,
    other: Seq<char>,
)
    requires
        login.state == LoginState::Authenticating,
    ensures
        ({
            let first = reaction(
                login,
                EventView::Response(ResponseView::Error { error_type, description: one }),
            );
            let second = reaction(
                login,
                EventView::Response(ResponseView::Error { error_type, description: other }),
            );
            &&& first matches Some((_, a)) && second matches Some((_, b))
                && a matches ActionView::End { cancel: c, outcome: x, .. }
                && b matches ActionView::End { cancel: d, outcome: y, .. } && c && d && x == y
                && x is Retry
        }),
{
}

/// Whether two events are errors that differ at most in their description.
pub open spec fn same_but_description(a: EventView, b: EventView) -> bool {
    &&& a matches EventView::Response(ResponseView::Error { error_type: s, .. })
    &&& b matches EventView::Response(ResponseView::Error { error_type: t, .. })
    &&& s == t
}

/// Whether two actions differ at most in what goes to the log.
pub open spec fn same_but_log(a: ActionView, b: ActionView) -> bool {
    a == b || (a matches ActionView::End { cancel: c, outcome: x, .. }
        && b matches ActionView::End { cancel: d, outcome: y, .. } && c == d && x == y)
}

/// How greetd describes an error met while authenticating reaches nothing but the
/// log: two runs that differ in such descriptions alone end in the same state,
/// and do the same apart from what they log.
pub proof fn law_description_is_not_shown(
    login: LoginView,
    one: Seq<EventView>,
    other: Seq<EventView>,
)
    requires
        one.len() == other.len(),
        forall|i: int|
            0 <= i < one.len() ==> #[trigger] one[i] == other[i] || (same_but_description(
                one[i],
                other[i],
            ) && run(login, one.take(i)).0.state == LoginState::Authenticating),
    ensures
        run(login, one).0 == run(login, other).0,
        run(login, one).1.len() == run(login, other).1.len(),
        forall|k: int|
            0 <= k < run(login, one).1.len() ==> same_but_log(
                #[trigger] run(login, one).1[k],
                run(login, other).1[k],
            ),
    decreases one.len(),
{
    if one.len() > 0 {
        let a = one.drop_last();
        let b = other.drop_last();
        assert forall|i: int| 0 <= i < a.len() implies #[trigger] a[i] == b[i] || (
        same_but_description(a[i], b[i]) && run(login, a.take(i)).0.state
            == LoginState::Authenticating) by {
            assert(a[i] == one[i] && b[i] == other[i]);
            assert(a.take(i) =~= one.take(i));
        }
        law_description_is_not_shown(login, a, b);
        assert(one.take(one.len() - 1) =~= a);
        assert(one[one.len() - 1] == one.last() && other[one.len() - 1] == other.last());
    }
}

/// A login begins by telling greetd the user name, and waits for what comes of it.
pub proof fn law_login_begins_with_the_user(username: Seq<char>, choice: ChoiceView)
    ensures
        exchange(RequestView::CreateSession { username }) == (ActionView::Exchange {
            notice: None,
            request: RequestView::CreateSession { username },
            scrub: false,
        }),
        begun(username, choice).username == username,
        begun(username, choice).choice == choice,
        begun(username, choice).state == LoginState::Authenticating,
{
}

/// Once greetd grants a login into a desktop session, of whatever kind, the very
/// next thing done is to ask for the start of that session: its whole command, and
/// the type of session in the environment. The user is authenticated from then on.
pub proof fn law_grant_starts_the_session(login: LoginView, session: SessionView)
    requires
        login.state == LoginState::Authenticating,
        login.choice == ChoiceView::Desktop(session),
    ensures
        reaction(login, EventView::Response(ResponseView::Success)) matches Some((state, action))
            && {
            &&& action == (ActionView::Exchange {
                notice: None,
                request: RequestView::StartSession {
                    cmd: session.cmd,
                    env: seq![
                        if session.kind == SessionKind::X11 {
                            "XDG_SESSION_TYPE=x11"@
                        } else {
                            "XDG_SESSION_TYPE=wayland"@
                        },
                    ],
                },
                scrub: false,
            })
            &&& state == LoginState::Starting
            &&& is_authenticated(state)
        },
{
}

/// Once greetd grants a login into the login shell, the shell of the very user who
/// logs in is looked up. The user is authenticated from then on.
pub proof fn law_grant_looks_up_the_shell(login: LoginView)
    requires
        login.state == LoginState::Authenticating,
        login.choice == ChoiceView::Shell,
    ensures
        reaction(login, EventView::Response(ResponseView::Success)) matches Some((state, action))
            && {
            &&& action == (ActionView::LookUpShell { username: login.username })
            &&& state == LoginState::LookingUpShell
            &&& is_authenticated(state)
        },
{
}

/// Whatever shell the lookup gives is started, as a login shell: the command has
/// two words, the shell as it was given and the flag. Only where there is none does
/// the standard shell stand in. No environment is set.
pub proof fn law_looked_up_shell_starts(login: LoginView, shell: Option<Seq<char>>)
    requires
        login.state == LoginState::LookingUpShell,
    ensures
        reaction(login, EventView::Shell(shell)) matches Some((state, action)) && {
            &&& state == LoginState::Starting
            &&& action matches ActionView::Exchange { notice, request, scrub }
            &&& notice is None && !scrub
            &&& request matches RequestView::StartSession { cmd, env }
            &&& env.len() == 0
            &&& cmd.len() == 2
            &&& shell matches Some(program) ==> cmd[0] == program
            &&& shell is None ==> cmd[0] == "/bin/sh"@
            &&& cmd[1] == "-l"@
        },
{
}

/// A start that greetd confirms ends the login as started. One that it refuses, or
/// answers with a question, ends it with the reason for the user. Nothing is
/// cancelled or logged then.
pub proof fn law_start_is_confirmed_or_explained(
    login: LoginView,
    error_type: ErrorType,
    kind: AuthMessageType,
    text: Seq<char>,
)
    requires
        login.state == LoginState::Starting,
    ensures
        ({
            let over = LoginState::Ended { authenticated: true };
            &&& reaction(login, EventView::Response(ResponseView::Success)) == Some(
                (
                    over,
                    ActionView::End { cancel: false, log: None, outcome: OutcomeView::Started },
                ),
            )
            &&& reaction(
                login,
                EventView::Response(ResponseView::Error { error_type, description: text }),
            ) == Some(
                (
                    over,
                    ActionView::End {
                        cancel: false,
                        log: None,
                        outcome: OutcomeView::Retry("could not start session: "@ + text),
                    },
                ),
            )
            &&& reaction(
                login,
                EventView::Response(
                    ResponseView::AuthMessage { auth_message_type: kind, auth_message: text },
                ),
            ) == Some(
                (
                    over,
                    ActionView::End {
                        cancel: false,
                        log: None,
                        outcome: OutcomeView::Retry(
                            "unexpected auth prompt after successful login"@,
                        ),
                    },
                ),
            )
        }),
{
}

/// A refused login is over at once and cancelled. A failed authentication is named
/// so; of any other error the user is told where to look, and what greetd said goes
/// to the log.
pub proof fn law_refusal_ends_the_login(login: LoginView, description: Seq<char>)
    requires
        login.state == LoginState::Authenticating,
    ensures
        ({
            let over = LoginState::Ended { authenticated: false };
            &&& reaction(
                login,
                EventView::Response(
                    ResponseView::Error { error_type: ErrorType::AuthError, description },
                ),
            ) == Some(
                (
                    over,
                    ActionView::End {
                        cancel: true,
                        log: None,
                        outcome: OutcomeView::Retry("Login incorrect"@),
                    },
                ),
            )
            &&& reaction(
                login,
                EventView::Response(
                    ResponseView::Error { error_type: ErrorType::Error, description },
                ),
            ) == Some(
                (
                    over,
                    ActionView::End {
                        cancel: true,
                        log: Some("greetd error: "@ + description),
                        outcome: OutcomeView::Retry(
                            "an internal error occurred, see system logs"@,
                        ),
                    },
                ),
            )
        }),
{
}

/// A line typed for a question is sent at once, whole and unchanged, to be scrubbed
/// exactly where the question was secret; then the login waits for greetd.
pub proof fn law_reply_is_sent(login: LoginView, secret: bool, text: Seq<char>)
    requires
        login.state == (LoginState::Answering { secret }),
    ensures
        reaction(login, EventView::Reply(text)) == Some(
            (
                LoginState::Authenticating,
                ActionView::Exchange {
                    notice: None,
                    request: RequestView::PostAuthMessageResponse { response: Some(text) },
                    scrub: secret,
                },
            ),
        ),
{
}

/// A login takes in what it waits for and nothing else: responses while
/// authenticating and while starting, a reply to a question, the shell looked up,
/// and nothing once it is over.
pub proof fn law_login_keeps_its_turns(login: LoginView, event: EventView)
    ensures
        reaction(login, event) is Some <==> match login.state {
            LoginState::Authenticating => event is Response,
            LoginState::Answering { .. } => event is Reply,
            LoginState::LookingUpShell => event is Shell,
            LoginState::Starting => event is Response,
            LoginState::Ended { .. } => false,
        },
{
}

/// Neither the user nor what was chosen changes in the course of a login.
pub proof fn law_user_and_choice_stay(login: LoginView, state: LoginState)
    ensures
        moved(login, state).username == login.username,
        moved(login, state).choice == login.choice,
        moved(login, state).state == state,
{
}

proof fn lemma_one_event_more(login: LoginView, events: Seq<EventView>)
    requires
        events.len() > 0,
    ensures
        ({
            let before = run(login, events.drop_last()).0.state;
            is_authenticated(run(login, events).0.state) == (is_authenticated(before) || (before
                == LoginState::Authenticating && events.last() == EventView::Response(
                ResponseView::Success,
            )))
        }),
{
    let before = run(login, events.drop_last()).0;
    let next = reaction(before, events.last());
    assert(run(login, events).0.state == match next {
        Some((state, _)) => state,
        None => before.state,
    });
}

/// A user counts as authenticated exactly when greetd has granted the login.
pub proof fn law_authenticated_means_granted(
    username: Seq<char>,
    choice: ChoiceView,
    events: Seq<EventView>,
)
    ensures
        is_authenticated(run(begun(username, choice), events).0.state) <==> (exists|i: int|
            0 <= i < events.len() && #[trigger] events[i] == EventView::Response(
                ResponseView::Success,
            ) && run(begun(username, choice), events.take(i)).0.state
                == LoginState::Authenticating),
    decreases events.len(),
{
    let login = begun(username, choice);
    if events.len() > 0 {
        let head = events.drop_last();
        let last = events.len() - 1;
        law_authenticated_means_granted(username, choice, head);
        lemma_one_event_more(login, events);
        assert(events.take(last) =~= head);
        assert(events[last] == events.last());
        assert forall|i: int| 0 <= i < last implies head[i] == #[trigger] events[i] && run(
            login,
            head.take(i),
        ) == run(login, events.take(i)) by {
            assert(head.take(i) =~= events.take(i));
        }
        if is_authenticated(run(login, head).0.state) {
            let i = choose|i: int|
                0 <= i < head.len() && #[trigger] head[i] == EventView::Response(
                    ResponseView::Success,
                ) && run(login, head.take(i)).0.state == LoginState::Authenticating;
            assert(events[i] == head[i]);
        }
    }
}

/// Actions and events of a login are seen with all that they hold.
pub proof fn law_login_is_seen_whole(
    text: String,
    request: Request,
    response: Response,
    outcome: LoginOutcome,
    flag: bool,
)
    ensures
        LoginOutcome::Started@ == OutcomeView::Started,
        LoginOutcome::Retry(text)@ == OutcomeView::Retry(text@),
        Notice::Info(text)@ == NoticeView::Info(text@),
        Notice::Error(text)@ == NoticeView::Error(text@),
        (LoginAction::Exchange { notice: None, request, scrub: flag })@ == (ActionView::Exchange {
            notice: None,
            request: request@,
            scrub: flag,
        }),
        (LoginAction::Exchange { notice: Some(Notice::Info(text)), request, scrub: flag })@ == (
        ActionView::Exchange {
            notice: Some(NoticeView::Info(text@)),
            request: request@,
            scrub: flag,
        }),
        (LoginAction::Exchange { notice: Some(Notice::Error(text)), request, scrub: flag })@ == (
        ActionView::Exchange {
            notice: Some(NoticeView::Error(text@)),
            request: request@,
            scrub: flag,
        }),
        (LoginAction::Ask { prompt: text, secret: flag })@ == (ActionView::Ask {
            prompt: text@,
            secret: flag,
        }),
        (LoginAction::LookUpShell { username: text })@ == (ActionView::LookUpShell {
            username: text@,
        }),
        (LoginAction::End { cancel: flag, log: Some(text), outcome })@ == (ActionView::End {
            cancel: flag,
            log: Some(text@),
            outcome: outcome@,
        }),
        (LoginAction::End { cancel: flag, log: None, outcome })@ == (ActionView::End {
            cancel: flag,
            log: None,
            outcome: outcome@,
        }),
        Event::Response(response)@ == EventView::Response(response@),
        Event::Reply(text)@ == EventView::Reply(text@),
        Event::Shell(Some(text))@ == EventView::Shell(Some(text@)),
        Event::Shell(None)@ == EventView::Shell(None),
{
}

} // verus!
