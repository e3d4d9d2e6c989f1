//! Which session to log into: picked without asking where there is no choice,
//! otherwise by number from a menu.

use crate::number::{
    all_digits, decimal, is_digit, lemma_decimal_reads_back, number, read_number, write_number,
};
use crate::session::{session_views, Session, SessionView};
use crate::text::{
    chars_of, law_blank_is_trimmed_away, law_trimmed_is_what_stands_between, lemma_trimmed_twice,
    trim, trimmed, view_option, views, whitespace,
};
use vstd::prelude::*;
use vstd::string::StringExecFns;

verus! {

/// What to log into: a desktop session, or the login shell of the user.
#[derive(Debug)]
pub enum Choice<'a> {
    Desktop(&'a Session),
    Shell,
}

/// What a [`Choice`] holds.
#[verifier::ext_equal]
pub enum ChoiceView {
    Desktop(SessionView),
    Shell,
}

impl<'a> View for Choice<'a> {
    type V = ChoiceView;

    open spec fn view(&self) -> ChoiceView {
        match self {
            Choice::Desktop(session) => ChoiceView::Desktop(session@),
            Choice::Shell => ChoiceView::Shell,
        }
    }
}

/// How a session is selected.
#[derive(Debug)]
pub enum Selection<'a> {
    /// There is no choice: what to log into, and the line to show, if any.
    Settled { announce: Option<String>, choice: Choice<'a> },
    /// Show the lines of a menu and ask with the prompt.
    Ask { menu: Vec<String>, prompt: String },
}

/// What a [`Selection`] holds.
#[verifier::ext_equal]
pub enum SelectionView {
    Settled { announce: Option<Seq<char>>, choice: ChoiceView },
    Ask { menu: Seq<Seq<char>>, prompt: Seq<char> },
}

impl<'a> View for Selection<'a> {
    type V = SelectionView;

    open spec fn view(&self) -> SelectionView {
        match self {
            Selection::Settled { announce, choice } => SelectionView::Settled {
                announce: view_option(*announce),
                choice: choice@,
            },
            Selection::Ask { menu, prompt } => SelectionView::Ask {
                menu: views(menu@),
                prompt: prompt@,
            },
        }
    }
}

/// The menu line of the session at position `i`, which is shown as one more.
pub open spec fn menu_line(sessions: Seq<SessionView>, i: int) -> Seq<char> {
    "  "@ + decimal((i + 1) as nat) + ") "@ + sessions[i].name
}

/// The menu: a heading, and one line for each session.
pub open spec fn menu_lines(sessions: Seq<SessionView>) -> Seq<Seq<char>> {
    seq!["available sessions:"@] + Seq::new(sessions.len(), |i: int| menu_line(sessions, i))
}

/// The question under a menu of `n` sessions.
pub open spec fn menu_prompt(n: nat) -> Seq<char> {
    "session [1-"@ + decimal(n) + ", default 1]: "@
}

/// Without sessions the login shell; a single session as it is; else a question.
pub open spec fn selection_of(sessions: Seq<SessionView>) -> SelectionView {
    if sessions.len() == 0 {
        SelectionView::Settled { announce: None, choice: ChoiceView::Shell }
    } else if sessions.len() == 1 {
        SelectionView::Settled {
            announce: Some("session: "@ + sessions[0].name),
            choice: ChoiceView::Desktop(sessions[0]),
        }
    } else {
        SelectionView::Ask { menu: menu_lines(sessions), prompt: menu_prompt(sessions.len()) }
    }
}

/// How to select among the sessions offered.
pub fn select_session<'a>(sessions: &'a [Session]) -> (r: Selection<'a>)
    ensures
        r@ == selection_of(session_views(sessions@)),
{
    let n: usize = sessions.len();
    let ghost sv = session_views(sessions@);
    if n == 0 {
        return Selection::Settled { announce: None, choice: Choice::Shell };
    }
    if n == 1 {
        let mut line = "session: ".to_owned();
        line.append(sessions[0].name.as_str());
        return Selection::Settled { announce: Some(line), choice: Choice::Desktop(&sessions[0]) };
    }
    let mut menu: Vec<String> = Vec::new();
    menu.push("available sessions:".to_owned());
    proof {
        assert(views(menu@) =~= menu_lines(sv).take(1));
    }
    let mut i: usize = 0;
    while i < n
        invariant
            n == sessions@.len(),
            i <= n,
            sv == session_views(sessions@),
            views(menu@) == menu_lines(sv).take(i + 1),
        decreases n - i,
    {
        let mut line = "  ".to_owned();
        line.append(write_number(i + 1).as_str());
        line.append(") ");
        line.append(sessions[i].name.as_str());
        let ghost before = menu@;
        menu.push(line);
        proof {
            assert(line@ == menu_line(sv, i as int));
            assert(menu_lines(sv)[i + 1] == line@);
            assert(views(menu@) =~= views(before).push(line@));
            assert(menu_lines(sv).take(i + 2) =~= menu_lines(sv).take(i + 1).push(line@));
        }
        i = i + 1;
    }
    assert(menu_lines(sv).take(i + 1) =~= menu_lines(sv));
    let mut prompt = "session [1-".to_owned();
    prompt.append(write_number(n).as_str());
    prompt.append(", default 1]: ");
    Selection::Ask { menu, prompt }
}

/// The position that an answer picks out of `n`: the first for an empty answer,
/// the one before the number given, or none.
pub open spec fn picked(answer: Seq<char>, n: nat) -> Option<int> {
    let text = trimmed(answer);
    if text.len() == 0 {
        Some(0)
    } else {
        match number(text) {
            Some(k) => if 1 <= k <= n {
                Some(k - 1)
            } else {
                None
            },
            None => None,
        }
    }
}

/// The session that an answer to the menu picks. `None` for an answer that is no
/// number on the menu.
pub fn pick_session<'a>(sessions: &'a [Session], answer: &str) -> (r: Option<Choice<'a>>)
    requires
        sessions@.len() > 0,
    ensures
        match r {
            Some(choice) => picked(answer@, sessions@.len()) matches Some(i) && choice@
                == ChoiceView::Desktop(sessions@[i]@),
            None => picked(answer@, sessions@.len()) is None,
        },
{
    let chars = chars_of(answer);
    let text = trim(chars.as_slice());
    if text.len() == 0 {
        return Some(Choice::Desktop(&sessions[0]));
    }
    let n: usize = sessions.len();
    match read_number(text) {
        Some(k) => if 1 <= k && k <= n {
            Some(Choice::Desktop(&sessions[k - 1]))
        } else {
            None
        },
        None => None,
    }
}

/// An answer picks a position on the menu or none.
pub proof fn law_picks_from_the_menu(answer: Seq<char>, n: nat)
    requires
        n > 0,
    ensures
        picked(answer, n) matches Some(i) ==> 0 <= i < n,
{
}

/// The number shown before a session picks that session.
pub proof fn law_shown_number_picks(i: int, n: nat)
    requires
        0 <= i < n,
    ensures
        picked(decimal((i + 1) as nat), n) == Some(i),
{
    let text = decimal((i + 1) as nat);
    lemma_decimal_reads_back((i + 1) as nat);
    lemma_digits_stay(text);
}

proof fn lemma_digits_stay(s: Seq<char>)
    requires
        all_digits(s),
    ensures
        trimmed(s) == s,
{
    assert(is_digit(s[0]));
    assert(is_digit(s[s.len() - 1]));
    assert(!whitespace(s[0]) && !whitespace(s.last()));
}

/// White space around an answer makes no difference.
pub proof fn law_answer_is_trimmed(answer: Seq<char>, n: nat)
    ensures
        picked(answer, n) == picked(trimmed(answer), n),
{
    lemma_trimmed_twice(answer);
}

/// Without sessions the login shell is taken silently; a single session is taken
/// and named.
pub proof fn law_nothing_to_choose(session: SessionView)
    ensures
        selection_of(seq![]) == (SelectionView::Settled {
            announce: None,
            choice: ChoiceView::Shell,
        }),
        selection_of(seq![session]) == (SelectionView::Settled {
            announce: Some("session: "@ + session.name),
            choice: ChoiceView::Desktop(session),
        }),
{
}

/// The menu shows each session on a line of its own, by its number and its name,
/// under a heading; the question says how far the numbers go.
pub proof fn law_menu_shows_each_session(sessions: Seq<SessionView>, i: int)
    requires
        sessions.len() > 1,
        0 <= i < sessions.len(),
    ensures
        selection_of(sessions) matches SelectionView::Ask { menu, prompt } && {
            &&& menu.len() == sessions.len() + 1
            &&& menu[0] == "available sessions:"@
            &&& menu[i + 1] == "  "@ + decimal((i + 1) as nat) + ") "@ + sessions[i].name
            &&& prompt == "session [1-"@ + decimal(sessions.len()) + ", default 1]: "@
        },
{
}

/// A number from one to the number of sessions picks the session of that number,
/// whatever white space stands around it. Any other text picks none.
pub proof fn law_answer_picks_by_number(
    before: Seq<char>,
    text: Seq<char>,
    after: Seq<char>,
    n: nat,
)
    requires
        forall|i: int| 0 <= i < before.len() ==> whitespace(#[trigger] before[i]),
        forall|i: int| 0 <= i < after.len() ==> whitespace(#[trigger] after[i]),
        text.len() > 0,
        !whitespace(text[0]),
        !whitespace(text.last()),
    ensures
        match picked(before + text + after, n) {
            Some(i) => 0 <= i < n && number(text) == Some((i + 1) as nat),
            None => number(text) matches Some(k) ==> k == 0 || k > n,
        },
{
    law_trimmed_is_what_stands_between(before, text, after);
}

/// An answer of nothing but white space picks the first session.
pub proof fn law_blank_answer_picks_the_first(answer: Seq<char>, n: nat)
    requires
        forall|i: int| 0 <= i < answer.len() ==> whitespace(#[trigger] answer[i]),
    ensures
        picked(answer, n) == Some(0int),
{
    law_blank_is_trimmed_away(answer);
}

/// Choices and selections are seen with all that they hold.
pub proof fn law_selection_is_seen_whole<'a>(
    session: &'a Session,
    line: String,
    choice: Choice<'a>,
    menu: Vec<String>,
)
    ensures
        Choice::Desktop(session)@ == ChoiceView::Desktop(session@),
        Choice::Shell@ == ChoiceView::Shell,
        (Selection::Settled { announce: Some(line), choice })@ == (SelectionView::Settled {
            announce: Some(line@),
            choice: choice@,
        }),
        (Selection::Settled { announce: None, choice })@ == (SelectionView::Settled {
            announce: None,
            choice: choice@,
        }),
        (Selection::Ask { menu, prompt: line })@ == (SelectionView::Ask {
            menu: Seq::new(menu@.len(), |i: int| menu@[i]@),
            prompt: line@,
        }),
{
    assert(views(menu@) =~= Seq::new(menu@.len(), |i: int| menu@[i]@));
}

} // verus!
