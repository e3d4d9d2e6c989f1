//! Lines and passwords typed at the terminal.

use vstd::prelude::*;

verus! {

/// Whether `c` ends a line.
pub open spec fn is_line_end(c: char) -> bool {
    c == '\n' || c == '\r'
}

/// `s` without the line ends that it ends with.
pub open spec fn without_line_end(s: Seq<char>) -> Seq<char>
    decreases s.len(),
{
    if s.len() > 0 && is_line_end(s.last()) {
        without_line_end(s.drop_last())
    } else {
        s
    }
}

/// Takes the line ends off the end of `line`. The text stays in its buffer, so
/// that no copy of it is left behind.
fn strip_line_end(line: &mut String)
    ensures
        final(line)@ == without_line_end(old(line)@),
{
    loop
        invariant_except_break
            without_line_end(line@) == without_line_end(old(line)@),
        ensures
            line@ == without_line_end(old(line)@),
        decreases line@.len(),
    {
        let ghost before = line@;
        match line.pop() {
            Some(c) => {
                if c != '\n' && c != '\r' {
                    line.push(c);
                    assert(line@ =~= before);
                    break;
                }
            },
            None => {
                break;
            },
        }
    }
}

/// What a line that was read gives: nothing at the end of input, where no byte
/// was read, otherwise its text.
pub open spec fn line_text(bytes_read: usize, line: Seq<char>) -> Option<Seq<char>> {
    if bytes_read == 0 {
        None
    } else {
        Some(without_line_end(line))
    }
}

/// The text of a line, given how many bytes were read for it. `None` at the end
/// of input.
pub fn prompt_line(bytes_read: usize, line: String) -> (r: Option<String>)
    ensures
        match r {
            Some(text) => line_text(bytes_read, line@) == Some(text@),
            None => line_text(bytes_read, line@) is None,
        },
{
    if bytes_read == 0 {
        return None;
    }
    let mut text = line;
    strip_line_end(&mut text);
    Some(text)
}

/// A password. It is not overwritten when it is dropped: whoever holds it does
/// so, through [`Secret::buffer`].
pub struct Secret {
    text: String,
}

impl View for Secret {
    type V = Seq<char>;

    closed spec fn view(&self) -> Seq<char> {
        self.text@
    }
}

impl Secret {
    /// The password as text.
    pub fn as_str(&self) -> (r: &str)
        ensures
            r@ == self@,
    {
        self.text.as_str()
    }

    /// The buffer that holds the password, to be overwritten.
    pub fn buffer(&mut self) -> (r: &mut String)
        ensures
            r@ == old(self)@,
            final(self)@ == final(r)@,
    {
        &mut self.text
    }
}

/// The password on a line, given how many bytes were read for it. `None` at the
/// end of input. The password stays in the buffer of the line.
pub fn prompt_password(bytes_read: usize, line: String) -> (r: Option<Secret>)
    ensures
        match r {
            Some(secret) => line_text(bytes_read, line@) == Some(secret@),
            None => line_text(bytes_read, line@) is None,
        },
{
    match prompt_line(bytes_read, line) {
        Some(text) => Some(Secret { text }),
        None => None,
    }
}

/// Where the asking for a password stands.
#[derive(Clone, Copy, Debug, PartialEq, Eq, Structural)]
pub enum PromptState {
    /// The prompt is being written.
    Writing,
    /// A line is being read, without echo.
    Reading,
    /// It is over.
    Done,
}

/// What came of the last step of asking for a password.
pub enum PromptEvent {
    /// The prompt was written, or not.
    Written(bool),
    /// So many bytes were read into the line.
    LineRead { bytes_read: usize, line: String },
    /// No line could be read.
    ReadFailed,
}

/// The next step of asking for a password.
pub enum PromptAction {
    /// Give up with the error at hand. Echo has not been touched.
    GiveUp,
    /// Turn echo off and read a line.
    ReadHidden,
    /// Turn echo on and give up with the error at hand.
    RestoreAndGiveUp,
    /// Go to a new line, turn echo on and hand over the password, or `None` at
    /// the end of input.
    RestoreAndFinish(Option<Secret>),
}

/// What a [`PromptEvent`] holds.
#[verifier::ext_equal]
pub enum PromptEventView {
    Written(bool),
    LineRead { bytes_read: usize, line: Seq<char> },
    ReadFailed,
}

/// What a [`PromptAction`] holds.
#[verifier::ext_equal]
pub enum PromptActionView {
    GiveUp,
    ReadHidden,
    RestoreAndGiveUp,
    RestoreAndFinish(Option<Seq<char>>),
}

impl View for PromptEvent {
    type V = PromptEventView;

    open spec fn view(&self) -> PromptEventView {
        match self {
            PromptEvent::Written(ok) => PromptEventView::Written(*ok),
            PromptEvent::LineRead { bytes_read, line } => PromptEventView::LineRead {
                bytes_read: *bytes_read,
                line: line@,
            },
            PromptEvent::ReadFailed => PromptEventView::ReadFailed,
        }
    }
}

impl View for PromptAction {
    type V = PromptActionView;

    open spec fn view(&self) -> PromptActionView {
        match self {
            PromptAction::GiveUp => PromptActionView::GiveUp,
            PromptAction::ReadHidden => PromptActionView::ReadHidden,
            PromptAction::RestoreAndGiveUp => PromptActionView::RestoreAndGiveUp,
            PromptAction::RestoreAndFinish(secret) => PromptActionView::RestoreAndFinish(
                match secret {
                    Some(s) => Some(s@),
                    None => None,
                },
            ),
        }
    }
}

/// The step that follows an event, and where the asking stands then. `None` for
/// an event that is not waited for.
pub open spec fn prompt_reaction(state: PromptState, event: PromptEventView) -> Option<
    (PromptState, PromptActionView),
> {
    match (state, event) {
        (PromptState::Writing, PromptEventView::Written(ok)) => Some(
            if ok {
                (PromptState::Reading, PromptActionView::ReadHidden)
            } else {
                (PromptState::Done, PromptActionView::GiveUp)
            },
        ),
        (PromptState::Reading, PromptEventView::LineRead { bytes_read, line }) => Some(
            (
                PromptState::Done,
                PromptActionView::RestoreAndFinish(line_text(bytes_read, line)),
            ),
        ),
        (PromptState::Reading, PromptEventView::ReadFailed) => Some(
            (PromptState::Done, PromptActionView::RestoreAndGiveUp),
        ),
        _ => None,
    }
}

impl PromptState {
    /// Takes in what came of the last step and decides on the next. An event that
    /// is not waited for gives `None` and changes nothing.
    pub fn step(&mut self, event: PromptEvent) -> (r: Option<PromptAction>)
        ensures
            match prompt_reaction(*old(self), event@) {
                Some((state, action)) => {
                    &&& r matches Some(a) && a@ == action
                    &&& *final(self) == state
                },
                None => r is None && *final(self) == *old(self),
            },
    {
        let (state, action) = match (*self, event) {
            (PromptState::Writing, PromptEvent::Written(ok)) => if ok {
                (PromptState::Reading, PromptAction::ReadHidden)
            } else {
                (PromptState::Done, PromptAction::GiveUp)
            },
            (PromptState::Reading, PromptEvent::LineRead { bytes_read, line }) => (
                PromptState::Done,
                PromptAction::RestoreAndFinish(prompt_password(bytes_read, line)),
            ),
            (PromptState::Reading, PromptEvent::ReadFailed) => (
                PromptState::Done,
                PromptAction::RestoreAndGiveUp,
            ),
            _ => {
                return None;
            },
        };
        *self = state;
        Some(action)
    }
}

/// Where the asking stands after a run of events, and the steps taken. An event
/// that is not waited for is passed over.
pub open spec fn prompt_run(events: Seq<PromptEventView>) -> (PromptState, Seq<PromptActionView>)
    decreases events.len(),
{
    if events.len() == 0 {
        (PromptState::Writing, seq![])
    } else {
        let (before, done) = prompt_run(events.drop_last());
        match prompt_reaction(before, events.last()) {
            Some((state, action)) => (state, done.push(action)),
            None => (before, done),
        }
    }
}

/// Whether echo is on after some steps, given whether it was on before them.
pub open spec fn echo_after(on: bool, done: Seq<PromptActionView>) -> bool
    decreases done.len(),
{
    if done.len() == 0 {
        on
    } else {
        match done.last() {
            PromptActionView::GiveUp => echo_after(on, done.drop_last()),
            PromptActionView::ReadHidden => false,
            PromptActionView::RestoreAndGiveUp => true,
            PromptActionView::RestoreAndFinish(_) => true,
        }
    }
}

/// However asking for a password ends, echo is on afterwards, unless it was off
/// before and the prompt could not even be written. While the line is read echo
/// is off.
pub proof fn law_echo_is_restored(on: bool, events: Seq<PromptEventView>)
    ensures
        ({
            let (state, done) = prompt_run(events);
            &&& state == PromptState::Done ==> echo_after(on, done) || (!on && done == seq![
                PromptActionView::GiveUp,
            ])
            &&& state == PromptState::Reading ==> !echo_after(on, done)
            &&& state == PromptState::Writing ==> done.len() == 0
        }),
    decreases events.len(),
{
    if events.len() > 0 {
        law_echo_is_restored(on, events.drop_last());
        let (before, did) = prompt_run(events.drop_last());
        match prompt_reaction(before, events.last()) {
            Some((state, action)) => {
                assert(did.push(action).drop_last() =~= did);
                if before == PromptState::Writing {
                    assert(did.push(action) =~= seq![action]);
                    assert(echo_after(on, did) == on);
                }
            },
            None => {},
        }
    }
}

/// Only line ends at the end of a line are taken off.
pub proof fn law_line_end_only(s: Seq<char>)
    ensures
        without_line_end(s).is_prefix_of(s),
        forall|i: int|
            without_line_end(s).len() <= i < s.len() ==> is_line_end(#[trigger] s[i]),
        without_line_end(s).len() > 0 ==> !is_line_end(without_line_end(s).last()),
    decreases s.len(),
{
    if s.len() > 0 && is_line_end(s.last()) {
        let t = s.drop_last();
        law_line_end_only(t);
        let w = without_line_end(t);
        assert(w =~= s.take(w.len() as int));
        assert forall|i: int| w.len() <= i < s.len() implies is_line_end(#[trigger] s[i]) by {
            if i < t.len() {
                assert(t[i] == s[i]);
            }
        }
    }
}

/// Of a line that was read, everything before the line feeds and carriage returns
/// at its end is kept, and nothing of those. Only where no byte was read is there
/// no text.
pub proof fn law_line_is_kept_up_to_its_end(bytes_read: usize, text: Seq<char>, ends: Seq<char>)
    requires
        forall|i: int| 0 <= i < ends.len() ==> #[trigger] ends[i] == '\n' || ends[i] == '\r',
        text.len() > 0 ==> text.last() != '\n' && text.last() != '\r',
    ensures
        line_text(bytes_read, text + ends) == if bytes_read == 0 {
            None
        } else {
            Some(text)
        },
    decreases ends.len(),
{
    let s = text + ends;
    if ends.len() == 0 {
        assert(s =~= text);
    } else {
        let fewer = ends.drop_last();
        assert(ends[ends.len() - 1] == s.last());
        assert(s.drop_last() =~= text + fewer);
        assert forall|i: int| 0 <= i < fewer.len() implies #[trigger] fewer[i] == '\n' || fewer[i]
            == '\r' by {
            assert(fewer[i] == ends[i]);
        }
        law_line_is_kept_up_to_its_end(bytes_read, text, fewer);
    }
}

/// A prompt that was written is followed by reading a line without echo; one that
/// was not ends the asking before echo is touched.
pub proof fn law_prompt_comes_first(ok: bool)
    ensures
        prompt_reaction(PromptState::Writing, PromptEventView::Written(ok)) == Some(
            if ok {
                (PromptState::Reading, PromptActionView::ReadHidden)
            } else {
                (PromptState::Done, PromptActionView::GiveUp)
            },
        ),
{
}

/// The password handed over is the line that was read, without its line end; at
/// the end of input there is none. Echo is turned on again in every case.
pub proof fn law_password_is_the_line(bytes_read: usize, text: Seq<char>, ends: Seq<char>)
    requires
        forall|i: int| 0 <= i < ends.len() ==> #[trigger] ends[i] == '\n' || ends[i] == '\r',
        text.len() > 0 ==> text.last() != '\n' && text.last() != '\r',
    ensures
        prompt_reaction(
            PromptState::Reading,
            PromptEventView::LineRead { bytes_read, line: text + ends },
        ) == Some(
            (
                PromptState::Done,
                PromptActionView::RestoreAndFinish(
                    if bytes_read == 0 {
                        None
                    } else {
                        Some(text)
                    },
                ),
            ),
        ),
        prompt_reaction(PromptState::Reading, PromptEventView::ReadFailed) == Some(
            (PromptState::Done, PromptActionView::RestoreAndGiveUp),
        ),
{
    law_line_is_kept_up_to_its_end(bytes_read, text, ends);
}

/// Nothing is done on an event out of turn.
pub proof fn law_prompt_keeps_its_turns(state: PromptState, event: PromptEventView)
    ensures
        prompt_reaction(state, event) is Some <==> (state == PromptState::Writing
            && event is Written) || (state == PromptState::Reading && !(event is Written)),
{
}

/// Events and steps are seen with all that they hold.
pub proof fn law_prompt_is_seen_whole(ok: bool, bytes_read: usize, line: String, secret: Secret)
    ensures
        PromptEvent::Written(ok)@ == PromptEventView::Written(ok),
        (PromptEvent::LineRead { bytes_read, line })@ == (PromptEventView::LineRead {
            bytes_read,
            line: line@,
        }),
        PromptEvent::ReadFailed@ == PromptEventView::ReadFailed,
        PromptAction::GiveUp@ == PromptActionView::GiveUp,
        PromptAction::ReadHidden@ == PromptActionView::ReadHidden,
        PromptAction::RestoreAndGiveUp@ == PromptActionView::RestoreAndGiveUp,
        PromptAction::RestoreAndFinish(Some(secret))@ == PromptActionView::RestoreAndFinish(
            Some(secret@),
        ),
        PromptAction::RestoreAndFinish(None)@ == PromptActionView::RestoreAndFinish(None),
{
}

} // verus!
