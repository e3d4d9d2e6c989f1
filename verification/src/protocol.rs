//! The messages between the greeter and greetd, as plain values.

use crate::text::{view_option, views};
use vstd::prelude::*;

verus! {

/// A request to greetd.
#[derive(Debug)]
pub enum Request {
    /// Begins a login for a user.
    CreateSession { username: String },
    /// Answers the last authentication message, with or without a text.
    PostAuthMessageResponse { response: Option<String> },
    /// Starts the session of a user who has been authenticated.
    StartSession { cmd: Vec<String>, env: Vec<String> },
    /// Gives up a login.
    CancelSession,
}

/// Why a request failed.
#[derive(Clone, Copy, Debug, PartialEq, Eq, Structural)]
pub enum ErrorType {
    /// Any failure other than that of authentication.
    Error,
    /// The user could not be authenticated.
    AuthError,
}

/// What an authentication message asks for.
#[derive(Clone, Copy, Debug, PartialEq, Eq, Structural)]
pub enum AuthMessageType {
    /// An answer that may be seen while it is typed.
    Visible,
    /// An answer that must not be seen while it is typed.
    Secret,
    /// Nothing: the message informs.
    Info,
    /// Nothing: the message tells of an error.
    Error,
}

/// A response from greetd.
#[derive(Debug)]
pub enum Response {
    /// The request was carried out.
    Success,
    /// The request failed.
    Error { error_type: ErrorType, description: String },
    /// The login goes on with a message for the user.
    AuthMessage { auth_message_type: AuthMessageType, auth_message: String },
}

/// What a [`Request`] holds.
#[verifier::ext_equal]
pub enum RequestView {
    CreateSession { username: Seq<char> },
    PostAuthMessageResponse { response: Option<Seq<char>> },
    StartSession { cmd: Seq<Seq<char>>, env: Seq<Seq<char>> },
    CancelSession,
}

/// What a [`Response`] holds.
#[verifier::ext_equal]
pub enum ResponseView {
    Success,
    Error { error_type: ErrorType, description: Seq<char> },
    AuthMessage { auth_message_type: AuthMessageType, auth_message: Seq<char> },
}

impl View for Request {
    type V = RequestView;

    open spec fn view(&self) -> RequestView {
        match self {
            Request::CreateSession { username } => RequestView::CreateSession {
                username: username@,
            },
            Request::PostAuthMessageResponse { response } => RequestView::PostAuthMessageResponse {
                response: view_option(*response),
            },
            Request::StartSession { cmd, env } => RequestView::StartSession {
                cmd: views(cmd@),
                env: views(env@),
            },
            Request::CancelSession => RequestView::CancelSession,
        }
    }
}

impl View for Response {
    type V = ResponseView;

    open spec fn view(&self) -> ResponseView {
        match self {
            Response::Success => ResponseView::Success,
            Response::Error { error_type, description } => ResponseView::Error {
                error_type: *error_type,
                description: description@,
            },
            Response::AuthMessage { auth_message_type, auth_message } => ResponseView::AuthMessage {
                auth_message_type: *auth_message_type,
                auth_message: auth_message@,
            },
        }
    }
}

/// Requests and responses are seen with all that they hold.
pub proof fn law_messages_are_seen_whole(
    username: String,
    answer: String,
    cmd: Vec<String>,
    env: Vec<String>,
    error_type: ErrorType,
    auth_message_type: AuthMessageType,
)
    ensures
        (Request::CreateSession { username })@ == (RequestView::CreateSession {
            username: username@,
        }),
        (Request::PostAuthMessageResponse { response: Some(answer) })@ == (
        RequestView::PostAuthMessageResponse { response: Some(answer@) }),
        (Request::PostAuthMessageResponse { response: None })@ == (
        RequestView::PostAuthMessageResponse { response: None }),
        (Request::StartSession { cmd, env })@ == (RequestView::StartSession {
            cmd: Seq::new(cmd@.len(), |i: int| cmd@[i]@),
            env: Seq::new(env@.len(), |i: int| env@[i]@),
        }),
        Request::CancelSession@ == RequestView::CancelSession,
        Response::Success@ == ResponseView::Success,
        (Response::Error { error_type, description: answer })@ == (ResponseView::Error {
            error_type,
            description: answer@,
        }),
        (Response::AuthMessage { auth_message_type, auth_message: answer })@ == (
        ResponseView::AuthMessage { auth_message_type, auth_message: answer@ }),
{
    assert(views(cmd@) =~= Seq::new(cmd@.len(), |i: int| cmd@[i]@));
    assert(views(env@) =~= Seq::new(env@.len(), |i: int| env@[i]@));
}

} // verus!
