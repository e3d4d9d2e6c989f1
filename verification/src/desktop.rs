//! Desktop entry files: which session, if any, a file offers.

use crate::session::{Session, SessionKind, SessionView};
use crate::text::{
    after_prefix, chars_of, contains_char, is_word, join_words, joined,
    law_pieces_meet_at_separators, law_prefix_and_rest, law_uncut_text_is_one_piece,
    law_word_stands_alone, law_words_meet_at_white_space, lemma_prefix_has_none,
    lemma_words_are_words, lemma_words_of_joined, pieces, prefix_without, same_text, slices,
    split_at_char, split_words, string_of, strip_prefix, texts, trim, trimmed, view_option, views,
    whitespace, words,
};
use vstd::prelude::*;
use vstd::string::StringExecFns;

verus! {

/// The error of `shell_words::split`: a quote that is not closed.
#[verifier::external_type_specification]
#[verifier::external_body]
pub struct ExParseError(shell_words::ParseError);

/// The words of a command line, as `shell_words::split` gives them; `None` where
/// it reports a quote that is not closed.
pub uninterp spec fn shell_split(line: Seq<char>) -> Option<Seq<Seq<char>>>;

/// Whether nothing in `line` is special to the shell rules: no quote, no
/// backslash, no `#`, and no white space but spaces, tabs and line feeds.
pub open spec fn unquoted(line: Seq<char>) -> bool {
    forall|i: int|
        0 <= i < line.len() ==> {
            let c = #[trigger] line[i];
            &&& c != '\'' && c != '"' && c != '\\' && c != '#'
            &&& whitespace(c) ==> c == ' ' || c == '\t' || c == '\n'
        }
}

/// `shell_words::split`: splits a command line into words as a Unix shell does,
/// with quotes removed and no expansion, or fails on a quote that is not closed.
/// Both whether it fails and the words depend on the line alone. A line in which
/// nothing is special is split at white space. The rules of quoting are not said
/// here.
pub assume_specification[ shell_words::split ](s: &str) -> (r: Result<
    Vec<String>,
    shell_words::ParseError,
>)
    ensures
        match r {
            Ok(found) => shell_split(s@) == Some(views(found@)),
            Err(_) => shell_split(s@) is None,
        },
        match r {
            Ok(found) => unquoted(s@) ==> views(found@) == words(s@),
            Err(_) => !unquoted(s@),
        },
;

/// What a desktop entry file says about a session.
#[derive(Debug)]
pub struct DesktopEntry {
    pub name: Option<String>,
    pub command: Option<String>,
    pub try_exec: Option<String>,
    pub hidden: bool,
    pub no_display: bool,
}

/// What a [`DesktopEntry`] holds.
#[verifier::ext_equal]
pub struct EntryView {
    pub name: Option<Seq<char>>,
    pub command: Option<Seq<char>>,
    pub try_exec: Option<Seq<char>>,
    pub hidden: bool,
    pub no_display: bool,
}

impl View for DesktopEntry {
    type V = EntryView;

    open spec fn view(&self) -> EntryView {
        EntryView {
            name: view_option(self.name),
            command: view_option(self.command),
            try_exec: view_option(self.try_exec),
            hidden: self.hidden,
            no_display: self.no_display,
        }
    }
}

/// The lines of a file, each without the white space around it.
pub open spec fn entry_lines(content: Seq<char>) -> Seq<Seq<char>> {
    pieces(content, '\n').map_values(|line: Seq<char>| trimmed(line))
}

/// What follows `prefix` on the first line that starts with it.
pub open spec fn first_value(lines: Seq<Seq<char>>, prefix: Seq<char>) -> Option<Seq<char>>
    decreases lines.len(),
{
    if lines.len() == 0 {
        None
    } else if first_value(lines.drop_last(), prefix) is Some {
        first_value(lines.drop_last(), prefix)
    } else {
        after_prefix(lines.last(), prefix)
    }
}

/// What the lines of a desktop entry file say: of each key the first value, and
/// whether a line hides the entry.
pub open spec fn entry_of(lines: Seq<Seq<char>>) -> EntryView {
    EntryView {
        name: first_value(lines, "Name="@),
        command: first_value(lines, "Exec="@),
        try_exec: first_value(lines, "TryExec="@),
        hidden: lines.contains("Hidden=true"@),
        no_display: lines.contains("NoDisplay=true"@),
    }
}

/// Takes the value of a line into `slot`, unless the slot holds one or the line
/// does not start with `prefix`.
fn take_value(slot: Option<String>, line: &[char], prefix: &str) -> (r: Option<String>)
    ensures
        view_option(r) == if slot is Some {
            view_option(slot)
        } else {
            after_prefix(line@, prefix@)
        },
{
    if slot.is_some() {
        return slot;
    }
    match strip_prefix(line, chars_of(prefix).as_slice()) {
        Some(value) => Some(string_of(value)),
        None => None,
    }
}

/// Reads a desktop entry file.
pub fn read_entry(content: &str) -> (r: DesktopEntry)
    ensures
        r@ == entry_of(entry_lines(content@)),
{
    let chars = chars_of(content);
    let lines = split_at_char(chars.as_slice(), '\n');
    let hidden_line = chars_of("Hidden=true");
    let no_display_line = chars_of("NoDisplay=true");
    let ghost all = entry_lines(content@);
    let mut name: Option<String> = None;
    let mut command: Option<String> = None;
    let mut try_exec: Option<String> = None;
    let mut hidden = false;
    let mut no_display = false;
    let mut i: usize = 0;
    proof {
        assert(all.take(0) =~= seq![]);
    }
    while i < lines.len()
        invariant
            i <= lines@.len(),
            all == entry_lines(content@),
            slices(lines@) == pieces(content@, '\n'),
            hidden_line@ == "Hidden=true"@,
            no_display_line@ == "NoDisplay=true"@,
            view_option(name) == first_value(all.take(i as int), "Name="@),
            view_option(command) == first_value(all.take(i as int), "Exec="@),
            view_option(try_exec) == first_value(all.take(i as int), "TryExec="@),
            hidden == all.take(i as int).contains("Hidden=true"@),
            no_display == all.take(i as int).contains("NoDisplay=true"@),
        decreases lines@.len() - i,
    {
        let line = trim(lines[i]);
        let ghost upto = all.take(i + 1);
        proof {
            assert(slices(lines@)[i as int] == lines@[i as int]@);
            assert(all[i as int] == line@);
            assert(upto.drop_last() =~= all.take(i as int));
            assert(upto.last() == line@);
            assert(upto =~= all.take(i as int).push(line@));
            lemma_contains_push(all.take(i as int), line@, "Hidden=true"@);
            lemma_contains_push(all.take(i as int), line@, "NoDisplay=true"@);
        }
        name = take_value(name, line, "Name=");
        command = take_value(command, line, "Exec=");
        try_exec = take_value(try_exec, line, "TryExec=");
        if same_text(line, hidden_line.as_slice()) {
            hidden = true;
        }
        if same_text(line, no_display_line.as_slice()) {
            no_display = true;
        }
        i = i + 1;
    }
    assert(all.take(i as int) =~= all);
    DesktopEntry { name, command, try_exec, hidden, no_display }
}

proof fn lemma_contains_push(s: Seq<Seq<char>>, last: Seq<char>, x: Seq<char>)
    ensures
        s.push(last).contains(x) == (s.contains(x) || last == x),
{
    if s.contains(x) {
        let k = choose|k: int| 0 <= k < s.len() && s[k] == x;
        assert(s.push(last)[k] == x);
    }
    if last == x {
        assert(s.push(last)[s.len() as int] == x);
    }
}

/// Whether a word begins as a field code such as `%f` or `%U`, which stands for the
/// files to open.
pub open spec fn is_field_code(word: Seq<char>) -> bool {
    word.len() > 0 && word[0] == '%'
}

/// The letters that make a field code of the `%` before them.
pub open spec fn is_code_letter(c: char) -> bool {
    ||| c == 'f' || c == 'F' || c == 'u' || c == 'U'
    ||| c == 'd' || c == 'D' || c == 'n' || c == 'N'
    ||| c == 'i' || c == 'c' || c == 'k' || c == 'v' || c == 'm'
}

/// Whether a field code stands anywhere in `s`, read from the left. `%%` stands for
/// a percent sign, so neither half of it begins a field code.
pub open spec fn holds_code(s: Seq<char>) -> bool
    decreases s.len(),
{
    if s.len() <= 1 {
        false
    } else if s[0] == '%' && s[1] == '%' {
        holds_code(s.skip(2))
    } else if s[0] == '%' && is_code_letter(s[1]) {
        true
    } else {
        holds_code(s.skip(1))
    }
}

/// A word with the field codes inside it taken out, read from the left. `%%` stays
/// as it is.
pub open spec fn without_codes(word: Seq<char>) -> Seq<char>
    decreases word.len(),
{
    if word.len() == 0 {
        word
    } else if word.len() > 1 && word[0] == '%' && word[1] == '%' {
        word.take(2) + without_codes(word.skip(2))
    } else if word.len() > 1 && word[0] == '%' && is_code_letter(word[1]) {
        without_codes(word.skip(2))
    } else {
        word.take(1) + without_codes(word.skip(1))
    }
}

/// The words of a command line without field codes: none that starts with one,
/// and the others with those inside them taken out.
pub open spec fn plain_words(line: Seq<char>) -> Seq<Seq<char>> {
    words(line).filter(|w: Seq<char>| !is_field_code(w)).map_values(
        |w: Seq<char>| without_codes(w),
    )
}

/// A command line without its field codes, with one space between words.
pub open spec fn cleaned(line: Seq<char>) -> Seq<char> {
    joined(plain_words(line))
}

/// Whether `c` makes a field code of the `%` before it.
fn completes_code(c: char) -> (r: bool)
    ensures
        r == is_code_letter(c),
{
    c == 'f' || c == 'F' || c == 'u' || c == 'U' || c == 'd' || c == 'D' || c == 'n' || c == 'N'
        || c == 'i' || c == 'c' || c == 'k' || c == 'v' || c == 'm'
}

/// Takes the field codes out of a word.
fn strip_codes(word: &[char]) -> (r: Vec<char>)
    ensures
        r@ == without_codes(word@),
{
    let mut r: Vec<char> = Vec::new();
    let mut i: usize = 0;
    proof {
        assert(word@.skip(0) =~= word@);
        assert(r@ + without_codes(word@) =~= without_codes(word@));
    }
    while i < word.len()
        invariant
            i <= word@.len(),
            r@ + without_codes(word@.skip(i as int)) == without_codes(word@),
        decreases word@.len() - i,
    {
        let ghost before = r@;
        let ghost rest = word@.skip(i as int);
        proof {
            assert(rest.skip(1) =~= word@.skip(i + 1));
            if rest.len() > 1 {
                assert(rest.skip(2) =~= word@.skip(i + 2));
            }
        }
        if i + 1 < word.len() && word[i] == '%' && word[i + 1] == '%' {
            r.push('%');
            r.push('%');
            i = i + 2;
            assert(r@ + without_codes(rest.skip(2)) =~= before + (rest.take(2) + without_codes(
                rest.skip(2),
            )));
        } else if i + 1 < word.len() && word[i] == '%' && completes_code(word[i + 1]) {
            i = i + 2;
        } else {
            r.push(word[i]);
            i = i + 1;
            assert(r@ + without_codes(rest.skip(1)) =~= before + (rest.take(1) + without_codes(
                rest.skip(1),
            )));
        }
    }
    assert(r@ + without_codes(word@.skip(i as int)) =~= r@);
    r
}

/// Drops the field codes of a command line.
pub fn clean_command(line: &str) -> (r: String)
    ensures
        r@ == cleaned(line@),
{
    let chars = chars_of(line);
    let all = split_words(chars.as_slice());
    let ghost plain = |w: Seq<char>| !is_field_code(w);
    let ghost strip = |w: Seq<char>| without_codes(w);
    let mut kept: Vec<Vec<char>> = Vec::new();
    let mut i: usize = 0;
    proof {
        assert(slices(all@).take(0) =~= seq![]);
        assert(texts(kept@) =~= seq![]);
    }
    while i < all.len()
        invariant
            i <= all@.len(),
            plain == (|w: Seq<char>| !is_field_code(w)),
            strip == (|w: Seq<char>| without_codes(w)),
            texts(kept@) == slices(all@).take(i as int).filter(plain).map_values(strip),
        decreases all@.len() - i,
    {
        let word: &[char] = all[i];
        let ghost before = kept@;
        let ghost earlier = slices(all@).take(i as int).filter(plain);
        proof {
            let upto = slices(all@).take(i + 1);
            assert(upto.drop_last() =~= slices(all@).take(i as int));
            assert(upto.last() == word@);
            reveal(Seq::filter);
        }
        if !(word.len() > 0 && word[0] == '%') {
            kept.push(strip_codes(word));
            proof {
                assert(texts(kept@) =~= texts(before).push(without_codes(word@)));
                assert(earlier.push(word@).map_values(strip) =~= earlier.map_values(strip).push(
                    without_codes(word@),
                ));
            }
        }
        i = i + 1;
    }
    assert(slices(all@).take(i as int) =~= slices(all@));
    join_words(&kept)
}

/// The command to run for a cleaned command line: the words that the shell
/// rules give or, where they fail, those between white space.
pub open spec fn command_of(line: Seq<char>, split: Option<Seq<Seq<char>>>) -> Seq<Seq<char>> {
    match split {
        Some(found) => found,
        None => words(line),
    }
}

/// The command to run for a cleaned command line, given what splitting it by
/// the shell rules gave.
pub fn command_words(line: &str, split: Option<Vec<String>>) -> (r: Vec<String>)
    ensures
        views(r@) == command_of(
            line@,
            match split {
                Some(found) => Some(views(found@)),
                None => None,
            },
        ),
{
    match split {
        Some(found) => found,
        None => {
            let chars = chars_of(line);
            let parts = split_words(chars.as_slice());
            let mut r: Vec<String> = Vec::new();
            let mut i: usize = 0;
            while i < parts.len()
                invariant
                    i <= parts@.len(),
                    views(r@) == slices(parts@).take(i as int),
                decreases parts@.len() - i,
            {
                let ghost before = r@;
                r.push(string_of(parts[i]));
                proof {
                    assert(views(r@) =~= views(before).push(parts@[i as int]@));
                    assert(slices(parts@).take(i + 1) =~= slices(parts@).take(i as int).push(
                        parts@[i as int]@,
                    ));
                }
                i = i + 1;
            }
            assert(slices(parts@).take(i as int) =~= slices(parts@));
            r
        },
    }
}

/// What a desktop entry file comes to.
#[derive(Debug)]
pub enum Candidate {
    /// The file offers no session.
    Rejected,
    /// The file offers a session.
    Offered(Session),
    /// The file offers a session if the program `binary` can be found.
    Conditional { binary: String, session: Session },
}

/// What a [`Candidate`] holds.
#[verifier::ext_equal]
pub enum CandidateView {
    Rejected,
    Offered(SessionView),
    Conditional { binary: Seq<char>, session: SessionView },
}

impl View for Candidate {
    type V = CandidateView;

    open spec fn view(&self) -> CandidateView {
        match self {
            Candidate::Rejected => CandidateView::Rejected,
            Candidate::Offered(session) => CandidateView::Offered(session@),
            Candidate::Conditional { binary, session } => CandidateView::Conditional {
                binary: binary@,
                session: session@,
            },
        }
    }
}

/// The session that is offered once it is known whether the binary of a
/// conditional one was found.
pub open spec fn settled(candidate: CandidateView, found: bool) -> Option<SessionView> {
    match candidate {
        CandidateView::Rejected => None,
        CandidateView::Offered(session) => Some(session),
        CandidateView::Conditional { session, .. } => if found {
            Some(session)
        } else {
            None
        },
    }
}

impl Candidate {
    /// The binary that the offer depends on.
    pub fn binary(&self) -> (r: Option<&str>)
        ensures
            match r {
                Some(b) => self@ matches CandidateView::Conditional { binary, .. } && binary == b@,
                None => !(self@ is Conditional),
            },
    {
        match self {
            Candidate::Conditional { binary, .. } => Some(binary.as_str()),
            _ => None,
        }
    }

    /// The session that is offered, given whether [`Candidate::binary`] was found.
    pub fn settle(self, found: bool) -> (r: Option<Session>)
        ensures
            match r {
                Some(session) => settled(self@, found) == Some(session@),
                None => settled(self@, found) is None,
            },
    {
        match self {
            Candidate::Rejected => None,
            Candidate::Offered(session) => Some(session),
            Candidate::Conditional { session, .. } => if found {
                Some(session)
            } else {
                None
            },
        }
    }
}

/// What an entry comes to: nothing when it is hidden, lacks a name or a command,
/// or its command has no words; otherwise a session, on the condition that its
/// `TryExec` program can be found where it names one.
pub open spec fn candidate_of(
    entry: EntryView,
    kind: SessionKind,
    split: Option<Seq<Seq<char>>>,
) -> CandidateView {
    if entry.hidden || entry.no_display || entry.name is None || entry.command is None {
        CandidateView::Rejected
    } else {
        let cmd = command_of(cleaned(entry.command->0), split);
        let session = SessionView { name: entry.name->0, cmd, kind };
        if cmd.len() == 0 {
            CandidateView::Rejected
        } else {
            match entry.try_exec {
                Some(binary) => CandidateView::Conditional { binary, session },
                None => CandidateView::Offered(session),
            }
        }
    }
}

/// What splitting the cleaned command of an entry by the shell rules gives.
pub open spec fn entry_split(entry: EntryView) -> Option<Seq<Seq<char>>> {
    match entry.command {
        Some(line) => shell_split(cleaned(line)),
        None => None,
    }
}

/// What an entry comes to, given what splitting its cleaned command by the
/// shell rules gave.
pub fn judge_entry(entry: DesktopEntry, kind: SessionKind, split: Option<Vec<String>>) -> (r:
    Candidate)
    ensures
        r@ == candidate_of(
            entry@,
            kind,
            match split {
                Some(found) => Some(views(found@)),
                None => None,
            },
        ),
{
    if entry.hidden || entry.no_display {
        return Candidate::Rejected;
    }
    let name = match entry.name {
        Some(name) => name,
        None => {
            return Candidate::Rejected;
        },
    };
    let line = match entry.command {
        Some(line) => line,
        None => {
            return Candidate::Rejected;
        },
    };
    let cmd = command_words(clean_command(line.as_str()).as_str(), split);
    assert(views(cmd@).len() == cmd@.len());
    if cmd.len() == 0 {
        return Candidate::Rejected;
    }
    let session = Session { name, cmd, kind };
    match entry.try_exec {
        Some(binary) => Candidate::Conditional { binary, session },
        None => Candidate::Offered(session),
    }
}

/// What the text of a desktop entry file comes to.
pub open spec fn parsed(content: Seq<char>, kind: SessionKind) -> CandidateView {
    let entry = entry_of(entry_lines(content));
    candidate_of(entry, kind, entry_split(entry))
}

/// Whether a command in which nothing is special to the shell rules is run as
/// its words without field codes.
pub open spec fn splits_plainly(content: Seq<char>) -> bool {
    let entry = entry_of(entry_lines(content));
    entry.command matches Some(line) ==> unquoted(cleaned(line)) ==> entry_split(entry) == Some(
        plain_words(line),
    )
}

/// What the text of a desktop entry file comes to.
pub fn parse_desktop_file(content: &str, kind: SessionKind) -> (r: Candidate)
    ensures
        r@ == parsed(content@, kind),
        splits_plainly(content@),
{
    let entry = read_entry(content);
    let split = match &entry.command {
        Some(line) => {
            proof {
                lemma_words_of_cleaned(line@);
            }
            match shell_words::split(clean_command(line.as_str()).as_str()) {
                Ok(found) => Some(found),
                Err(_) => None,
            }
        },
        None => None,
    };
    judge_entry(entry, kind, split)
}

proof fn lemma_without_codes(word: Seq<char>)
    ensures
        !holds_code(without_codes(word)),
        forall|i: int|
            0 <= i < without_codes(word).len() ==> word.contains(#[trigger] without_codes(word)[i]),
        word.len() > 0 && word[0] != '%' ==> without_codes(word).len() > 0 && without_codes(word)[0]
            == word[0],
    decreases word.len(),
{
    if word.len() > 0 {
        let now = without_codes(word);
        let pair = word.len() > 1 && word[0] == '%' && (word[1] == '%' || is_code_letter(word[1]));
        let step: int = if pair {
            2
        } else {
            1
        };
        let rest = word.skip(step);
        lemma_without_codes(rest);
        let kept: int = now.len() - without_codes(rest).len();
        assert(now.skip(kept) =~= without_codes(rest));
        if step == 1 && word.len() > 1 {
            assert(rest[0] == word[1]);
        }
        assert forall|i: int| 0 <= i < now.len() implies word.contains(#[trigger] now[i]) by {
            if i < kept {
                assert(now[i] == word[i]);
            } else {
                assert(now[i] == without_codes(rest)[i - kept]);
                let j = choose|j: int| 0 <= j < rest.len() && rest[j] == now[i];
                assert(word[j + step] == now[i]);
            }
        }
    }
}

proof fn lemma_plain_words(line: Seq<char>, k: int)
    requires
        0 <= k < plain_words(line).len(),
    ensures
        is_word(plain_words(line)[k]),
        !holds_code(plain_words(line)[k]),
        plain_words(line)[k][0] != '%',
{
    let plain = |w: Seq<char>| !is_field_code(w);
    let kept = words(line).filter(plain);
    assert(kept.contains(kept[k]));
    words(line).lemma_filter_contains_rev(plain, kept[k]);
    words(line).lemma_filter_pred(plain, k);
    let j = choose|j: int| 0 <= j < words(line).len() && words(line)[j] == kept[k];
    lemma_words_are_words(line, j);
    let word = kept[k];
    let now = plain_words(line)[k];
    lemma_without_codes(word);
    assert(now == without_codes(word));
    assert forall|i: int| 0 <= i < now.len() implies !whitespace(#[trigger] now[i]) by {
        assert(word.contains(now[i]));
        let m = choose|m: int| 0 <= m < word.len() && word[m] == now[i];
        assert(!whitespace(word[m]));
    }
}

proof fn lemma_words_of_cleaned(line: Seq<char>)
    ensures
        words(cleaned(line)) == plain_words(line),
{
    let kept = plain_words(line);
    assert forall|k: int| 0 <= k < kept.len() implies is_word(#[trigger] kept[k]) by {
        lemma_plain_words(line, k);
    }
    lemma_words_of_joined(kept);
}

/// No word of a cleaned command line holds a field code, and none is empty.
pub proof fn law_no_field_code_stays(line: Seq<char>, k: int)
    requires
        0 <= k < plain_words(line).len(),
    ensures
        !holds_code(plain_words(line)[k]),
        !is_field_code(plain_words(line)[k]),
        plain_words(line)[k].len() > 0,
        words(cleaned(line)) == plain_words(line),
{
    lemma_plain_words(line, k);
    lemma_words_of_cleaned(line);
}

/// A word without field codes stays as it is.
pub proof fn law_word_without_codes_stays(word: Seq<char>)
    requires
        !holds_code(word),
    ensures
        without_codes(word) == word,
    decreases word.len(),
{
    if word.len() > 0 {
        let step: int = if word.len() > 1 && word[0] == '%' && word[1] == '%' {
            2
        } else {
            1
        };
        law_word_without_codes_stays(word.skip(step));
        assert(word.take(step) + word.skip(step) =~= word);
    }
}

/// Where no word of a command line holds a field code, the line loses nothing but
/// the words that begin with `%`.
pub proof fn law_other_words_stay(line: Seq<char>)
    requires
        forall|k: int| 0 <= k < words(line).len() ==> !holds_code(#[trigger] words(line)[k]),
    ensures
        plain_words(line) == words(line).filter(|w: Seq<char>| !is_field_code(w)),
{
    let plain = |w: Seq<char>| !is_field_code(w);
    let kept = words(line).filter(plain);
    assert forall|k: int| 0 <= k < kept.len() implies #[trigger] plain_words(line)[k] == kept[k] by {
        assert(kept.contains(kept[k]));
        words(line).lemma_filter_contains_rev(plain, kept[k]);
        let j = choose|j: int| 0 <= j < words(line).len() && words(line)[j] == kept[k];
        assert(!holds_code(words(line)[j]));
        law_word_without_codes_stays(kept[k]);
    }
    assert(plain_words(line) =~= kept);
}

/// The first value of a key stands, whatever follows it in the file.
pub proof fn law_first_value_stands(lines: Seq<Seq<char>>, more: Seq<Seq<char>>, prefix: Seq<char>)
    requires
        first_value(lines, prefix) is Some,
    ensures
        first_value(lines + more, prefix) == first_value(lines, prefix),
    decreases more.len(),
{
    if more.len() == 0 {
        assert(lines + more =~= lines);
    } else {
        assert((lines + more).drop_last() =~= lines + more.drop_last());
        law_first_value_stands(lines, more.drop_last(), prefix);
    }
}

/// A value is what follows the key on a line that starts with it, with no such
/// line before.
pub proof fn law_value_is_on_its_line(lines: Seq<Seq<char>>, prefix: Seq<char>)
    ensures
        match first_value(lines, prefix) {
            Some(value) => exists|i: int|
                0 <= i < lines.len() && after_prefix(#[trigger] lines[i], prefix) == Some(value)
                    && (forall|j: int| 0 <= j < i ==> !prefix.is_prefix_of(#[trigger] lines[j])),
            None => forall|j: int| 0 <= j < lines.len() ==> !prefix.is_prefix_of(
                #[trigger] lines[j],
            ),
        },
    decreases lines.len(),
{
    if lines.len() > 0 {
        let head = lines.drop_last();
        law_value_is_on_its_line(head, prefix);
        match first_value(head, prefix) {
            Some(value) => {
                let i = choose|i: int|
                    0 <= i < head.len() && after_prefix(#[trigger] head[i], prefix) == Some(value)
                        && (forall|j: int|
                        0 <= j < i ==> !prefix.is_prefix_of(#[trigger] head[j]));
                assert(after_prefix(lines[i], prefix) == Some(value));
                assert forall|j: int| 0 <= j < i implies !prefix.is_prefix_of(
                    #[trigger] lines[j],
                ) by {
                    assert(head[j] == lines[j]);
                }
            },
            None => {
                assert forall|j: int| 0 <= j < head.len() implies !prefix.is_prefix_of(
                    #[trigger] lines[j],
                ) by {
                    assert(head[j] == lines[j]);
                }
                let last = lines.len() - 1;
                assert(lines[last] == lines.last());
            },
        }
    }
}

/// Where the shell rules fail on a command, its words without field codes are
/// run.
pub proof fn law_unclosed_quote_keeps_words(line: Seq<char>)
    ensures
        command_of(cleaned(line), None) == plain_words(line),
{
    lemma_words_of_cleaned(line);
}

/// No word of the command of an offered session holds a field code, where nothing
/// in the command is special to the shell rules or where they fail on it.
pub proof fn law_offered_command_has_no_code(
    content: Seq<char>,
    kind: SessionKind,
    found: bool,
    k: int,
)
    requires
        splits_plainly(content),
        settled(parsed(content, kind), found) matches Some(session) && 0 <= k < session.cmd.len(),
        ({
            let entry = entry_of(entry_lines(content));
            unquoted(cleaned(entry.command->0)) || entry_split(entry) is None
        }),
    ensures
        !holds_code(settled(parsed(content, kind), found)->0.cmd[k]),
{
    let line = entry_of(entry_lines(content)).command->0;
    lemma_words_of_cleaned(line);
    lemma_plain_words(line, k);
}

/// An entry that is hidden, or whose `TryExec` program is not found, is never
/// offered. Any other with a name and a command of at least one word is offered,
/// under that name and with that command.
pub proof fn law_when_offered(
    entry: EntryView,
    kind: SessionKind,
    split: Option<Seq<Seq<char>>>,
    found: bool,
)
    ensures
        ({
            let offer = settled(candidate_of(entry, kind, split), found);
            let barred = entry.hidden || entry.no_display || (entry.try_exec is Some && !found);
            &&& barred ==> offer is None
            &&& entry.name is None || entry.command is None ==> offer is None
            &&& entry.name matches Some(name) ==> entry.command matches Some(line) ==> !barred ==> {
                let cmd = command_of(cleaned(line), split);
                offer == if cmd.len() > 0 {
                    Some(SessionView { name, cmd, kind })
                } else {
                    None
                }
            }
        }),
{
}

/// A directory and the name of a file in it, as one path.
pub open spec fn path_in(dir: Seq<char>, name: Seq<char>) -> Seq<char> {
    if dir.len() == 0 {
        name
    } else if dir.last() == '/' {
        dir + name
    } else {
        dir.push('/') + name
    }
}

/// The files that a program name can stand for: the path itself where it is one,
/// otherwise that name in each directory of the search path, in its order.
pub open spec fn binary_paths(name: Seq<char>, path: Option<Seq<char>>) -> Seq<Seq<char>> {
    if name.contains('/') {
        seq![name]
    } else {
        match path {
            Some(dirs) => pieces(dirs, ':').map_values(|dir: Seq<char>| path_in(dir, name)),
            None => seq![],
        }
    }
}

/// The files of which one must exist for the program `name` to be found, given
/// the value of the search path variable.
pub fn binary_candidates(name: &str, path: Option<&str>) -> (r: Vec<String>)
    ensures
        views(r@) == binary_paths(
            name@,
            match path {
                Some(dirs) => Some(dirs@),
                None => None,
            },
        ),
{
    let mut r: Vec<String> = Vec::new();
    if contains_char(chars_of(name).as_slice(), '/') {
        r.push(name.to_owned());
        assert(views(r@) =~= seq![name@]);
        return r;
    }
    if let Some(value) = path {
        let chars = chars_of(value);
        let dirs = split_at_char(chars.as_slice(), ':');
        let ghost all = pieces(value@, ':').map_values(|dir: Seq<char>| path_in(dir, name@));
        let mut i: usize = 0;
        while i < dirs.len()
            invariant
                i <= dirs@.len(),
                slices(dirs@) == pieces(value@, ':'),
                all == pieces(value@, ':').map_values(|dir: Seq<char>| path_in(dir, name@)),
                views(r@) == all.take(i as int),
            decreases dirs@.len() - i,
        {
            let dir: &[char] = dirs[i];
            let mut file = string_of(dir);
            if dir.len() > 0 && dir[dir.len() - 1] != '/' {
                file.push('/');
            }
            file.append(name);
            let ghost before = r@;
            r.push(file);
            proof {
                assert(slices(dirs@)[i as int] == dir@);
                assert(file@ =~= path_in(dir@, name@));
                assert(all[i as int] == file@);
                assert(views(r@) =~= views(before).push(file@));
                assert(all.take(i + 1) =~= all.take(i as int).push(file@));
            }
            i = i + 1;
        }
        assert(all.take(i as int) =~= all);
    }
    r
}

/// A file is read line by line, and each line is taken without the white space
/// around it.
pub proof fn law_lines_are_read_one_by_one(a: Seq<char>, b: Seq<char>, line: Seq<char>)
    requires
        !line.contains('\n'),
    ensures
        entry_lines(a.push('\n') + b) == entry_lines(a) + entry_lines(b),
        entry_lines(line) == seq![trimmed(line)],
{
    law_pieces_meet_at_separators(a, '\n', b);
    law_uncut_text_is_one_piece(line, '\n');
    assert(entry_lines(a.push('\n') + b) =~= entry_lines(a) + entry_lines(b));
    assert(entry_lines(line) =~= seq![trimmed(line)]);
}

proof fn lemma_first_value_at(lines: Seq<Seq<char>>, prefix: Seq<char>, i: int, value: Seq<char>)
    requires
        0 <= i < lines.len(),
        lines[i] == prefix + value,
        forall|k: int| 0 <= k < i ==> !prefix.is_prefix_of(#[trigger] lines[k]),
    ensures
        first_value(lines, prefix) == Some(value),
    decreases lines.len(),
{
    let head = lines.drop_last();
    law_prefix_and_rest(prefix, value, lines[i]);
    if i < head.len() {
        assert(head[i] == lines[i]);
        assert forall|k: int| 0 <= k < i implies !prefix.is_prefix_of(#[trigger] head[k]) by {
            assert(head[k] == lines[k]);
        }
        lemma_first_value_at(head, prefix, i, value);
    } else {
        assert forall|k: int| 0 <= k < head.len() implies !prefix.is_prefix_of(
            #[trigger] head[k],
        ) by {
            assert(head[k] == lines[k]);
        }
        lemma_no_value(head, prefix);
    }
}

proof fn lemma_no_value(lines: Seq<Seq<char>>, prefix: Seq<char>)
    requires
        forall|k: int| 0 <= k < lines.len() ==> !prefix.is_prefix_of(#[trigger] lines[k]),
    ensures
        first_value(lines, prefix) is None,
    decreases lines.len(),
{
    if lines.len() > 0 {
        let head = lines.drop_last();
        assert forall|k: int| 0 <= k < head.len() implies !prefix.is_prefix_of(
            #[trigger] head[k],
        ) by {
            assert(head[k] == lines[k]);
        }
        assert(!prefix.is_prefix_of(lines[lines.len() - 1]));
        lemma_no_value(head, prefix);
    }
}

/// The name of an entry is what follows the key on the first line that starts with
/// it, all of it; so are the command and the program to try. Where no line starts
/// with a key, the entry lacks it.
pub proof fn law_entry_holds_whole_values(lines: Seq<Seq<char>>, i: int, value: Seq<char>)
    requires
        0 <= i < lines.len(),
    ensures
        lines[i] == "Name="@ + value && (forall|k: int|
            0 <= k < i ==> !"Name="@.is_prefix_of(#[trigger] lines[k])) ==> entry_of(lines).name
            == Some(value),
        lines[i] == "Exec="@ + value && (forall|k: int|
            0 <= k < i ==> !"Exec="@.is_prefix_of(#[trigger] lines[k])) ==> entry_of(lines).command
            == Some(value),
        lines[i] == "TryExec="@ + value && (forall|k: int|
            0 <= k < i ==> !"TryExec="@.is_prefix_of(#[trigger] lines[k])) ==> entry_of(
            lines,
        ).try_exec == Some(value),
{
    if lines[i] == "Name="@ + value && (forall|k: int|
        0 <= k < i ==> !"Name="@.is_prefix_of(#[trigger] lines[k])) {
        lemma_first_value_at(lines, "Name="@, i, value);
    }
    if lines[i] == "Exec="@ + value && (forall|k: int|
        0 <= k < i ==> !"Exec="@.is_prefix_of(#[trigger] lines[k])) {
        lemma_first_value_at(lines, "Exec="@, i, value);
    }
    if lines[i] == "TryExec="@ + value && (forall|k: int|
        0 <= k < i ==> !"TryExec="@.is_prefix_of(#[trigger] lines[k])) {
        lemma_first_value_at(lines, "TryExec="@, i, value);
    }
}

/// An entry lacks exactly the keys that no line starts with, and is hidden exactly
/// where a line says so.
pub proof fn law_entry_holds_nothing_else(lines: Seq<Seq<char>>)
    ensures
        entry_of(lines).name is None <==> forall|k: int|
            0 <= k < lines.len() ==> !"Name="@.is_prefix_of(#[trigger] lines[k]),
        entry_of(lines).command is None <==> forall|k: int|
            0 <= k < lines.len() ==> !"Exec="@.is_prefix_of(#[trigger] lines[k]),
        entry_of(lines).try_exec is None <==> forall|k: int|
            0 <= k < lines.len() ==> !"TryExec="@.is_prefix_of(#[trigger] lines[k]),
        entry_of(lines).hidden <==> exists|k: int|
            0 <= k < lines.len() && #[trigger] lines[k] == "Hidden=true"@,
        entry_of(lines).no_display <==> exists|k: int|
            0 <= k < lines.len() && #[trigger] lines[k] == "NoDisplay=true"@,
{
    law_value_is_on_its_line(lines, "Name="@);
    law_value_is_on_its_line(lines, "Exec="@);
    law_value_is_on_its_line(lines, "TryExec="@);
}

/// The letters of field codes.
pub proof fn law_code_letters(c: char)
    ensures
        is_code_letter(c) <==> "fFuUdDnNickvm"@.contains(c),
{
    reveal_strlit("fFuUdDnNickvm");
    let letters = "fFuUdDnNickvm"@;
    assert(letters[0] == 'f' && letters[1] == 'F' && letters[2] == 'u' && letters[3] == 'U');
    assert(letters[4] == 'd' && letters[5] == 'D' && letters[6] == 'n' && letters[7] == 'N');
    assert(letters[8] == 'i' && letters[9] == 'c' && letters[10] == 'k' && letters[11] == 'v');
    assert(letters[12] == 'm' && letters.len() == 13);
}

proof fn lemma_plain_front_stays(a: Seq<char>, b: Seq<char>)
    requires
        !a.contains('%'),
    ensures
        without_codes(a + b) == a + without_codes(b),
    decreases a.len(),
{
    let s = a + b;
    if a.len() == 0 {
        assert(s =~= b);
        assert(a + without_codes(b) =~= without_codes(b));
    } else {
        let t = a.skip(1);
        assert forall|i: int| 0 <= i < t.len() implies t[i] != '%' by {
            assert(a.contains(a[i + 1]));
        }
        assert(a.contains(a[0]));
        lemma_plain_front_stays(t, b);
        assert(s.skip(1) =~= t + b);
        assert(s[0] == a[0]);
        assert(s.take(1) + (t + without_codes(b)) =~= a + without_codes(b));
    }
}

proof fn lemma_percent_sign_in_front(c: char, b: Seq<char>)
    ensures
        without_codes(seq!['%']) == seq!['%'],
        without_codes(seq!['%', c] + b) == if is_code_letter(c) {
            without_codes(b)
        } else {
            seq!['%', c] + without_codes(b)
        },
{
    let lone = seq!['%'];
    assert(lone.skip(1) =~= Seq::<char>::empty());
    assert(lone.take(1) + without_codes(lone.skip(1)) =~= lone);
    let s = seq!['%', c] + b;
    assert(s[0] == '%' && s[1] == c);
    assert(s.skip(2) =~= b);
    assert(s.take(2) =~= seq!['%', c]);
    if !is_code_letter(c) && c != '%' {
        let t = s.skip(1);
        assert(t[0] == c);
        assert(t.skip(1) =~= b);
        assert(without_codes(t) == t.take(1) + without_codes(b));
        assert(s.take(1) + (t.take(1) + without_codes(b)) =~= seq!['%', c] + without_codes(b));
    }
}

/// What comes before the first percent sign of a word stays. From there on a
/// percent sign with a code letter goes, and one with anything else stays, two of
/// them as one sign; then the rest of the word is taken in the same way.
pub proof fn law_codes_go_and_the_rest_stays(a: Seq<char>, c: char, b: Seq<char>)
    requires
        !a.contains('%'),
    ensures
        without_codes(a) == a,
        without_codes(a.push('%')) == a.push('%'),
        without_codes(a + seq!['%', c] + b) == if is_code_letter(c) {
            a + without_codes(b)
        } else {
            a + seq!['%', c] + without_codes(b)
        },
{
    assert(a + Seq::<char>::empty() =~= a);
    lemma_plain_front_stays(a, Seq::empty());
    assert(a + seq!['%'] =~= a.push('%'));
    lemma_plain_front_stays(a, seq!['%']);
    lemma_percent_sign_in_front(c, b);
    assert(a + seq!['%', c] + b =~= a + (seq!['%', c] + b));
    lemma_plain_front_stays(a, seq!['%', c] + b);
    assert(a + (seq!['%', c] + without_codes(b)) =~= a + seq!['%', c] + without_codes(b));
}

proof fn lemma_codes_shorten(word: Seq<char>)
    ensures
        without_codes(word).len() <= word.len(),
        holds_code(word) ==> without_codes(word).len() < word.len(),
    decreases word.len(),
{
    if word.len() > 0 {
        lemma_codes_shorten(word.skip(1));
        if word.len() > 1 {
            lemma_codes_shorten(word.skip(2));
        }
    }
}

/// A word holds a field code exactly where taking the codes out changes it.
pub proof fn law_codes_are_what_goes(word: Seq<char>)
    ensures
        holds_code(word) <==> without_codes(word) != word,
{
    lemma_codes_shorten(word);
    if !holds_code(word) {
        law_word_without_codes_stays(word);
    }
}

/// A command line is cleaned word by word, in order: what stands on either side of
/// a white space character is cleaned on its own. What is kept is put together with
/// single spaces.
pub proof fn law_command_is_cleaned_in_turn(a: Seq<char>, c: char, b: Seq<char>)
    requires
        whitespace(c),
    ensures
        plain_words(a.push(c) + b) == plain_words(a) + plain_words(b),
        cleaned(a) == joined(plain_words(a)),
{
    let plain = |w: Seq<char>| !is_field_code(w);
    let strip = |w: Seq<char>| without_codes(w);
    law_words_meet_at_white_space(a, c, b);
    Seq::filter_distributes_over_add(words(a), words(b), plain);
    assert((words(a).filter(plain) + words(b).filter(plain)).map_values(strip) =~= plain_words(a)
        + plain_words(b));
}

proof fn lemma_filter_one(word: Seq<char>)
    ensures
        seq![word].filter(|w: Seq<char>| !is_field_code(w)) == if is_field_code(word) {
            seq![]
        } else {
            seq![word]
        },
{
    let plain = |w: Seq<char>| !is_field_code(w);
    let none: Seq<Seq<char>> = seq![];
    reveal(Seq::filter);
    assert(seq![word].drop_last() =~= none);
    assert(none.filter(plain) =~= none);
    assert(none.push(word) =~= seq![word]);
}

/// A word that begins with a percent sign is dropped from a command line, any
/// other is kept without its field codes.
pub proof fn law_word_is_dropped_or_cleaned(word: Seq<char>)
    requires
        word.len() > 0,
        forall|i: int| 0 <= i < word.len() ==> !whitespace(#[trigger] word[i]),
    ensures
        plain_words(word) == if word[0] == '%' {
            seq![]
        } else {
            seq![without_codes(word)]
        },
{
    law_word_stands_alone(word);
    lemma_filter_one(word);
    assert(plain_words(word) =~= if word[0] == '%' {
        seq![]
    } else {
        seq![without_codes(word)]
    });
}

proof fn lemma_word_is_in_text(s: Seq<char>, k: int, m: int)
    requires
        0 <= k < words(s).len(),
        0 <= m < words(s)[k].len(),
    ensures
        s.contains(words(s)[k][m]),
    decreases s.len(),
{
    if s.len() > 0 {
        let stop = |c: char| whitespace(c);
        let n: int = if whitespace(s[0]) {
            1
        } else {
            prefix_without(s, stop) as int
        };
        lemma_prefix_has_none(s, stop);
        let first: int = if whitespace(s[0]) {
            0
        } else {
            1
        };
        if k < first {
            assert(words(s)[k][m] == s[m]);
        } else {
            let rest = s.skip(n);
            assert(words(s)[k] == words(rest)[k - first]);
            lemma_word_is_in_text(rest, k - first, m);
            let i = choose|i: int| 0 <= i < rest.len() && rest[i] == words(s)[k][m];
            assert(s[i + n] == words(s)[k][m]);
        }
    }
}

proof fn lemma_plain_word_is_in_text(line: Seq<char>, k: int, m: int)
    requires
        0 <= k < plain_words(line).len(),
        0 <= m < plain_words(line)[k].len(),
    ensures
        line.contains(plain_words(line)[k][m]),
{
    let plain = |w: Seq<char>| !is_field_code(w);
    let kept = words(line).filter(plain);
    assert(kept.contains(kept[k]));
    words(line).lemma_filter_contains_rev(plain, kept[k]);
    let j = choose|j: int| 0 <= j < words(line).len() && words(line)[j] == kept[k];
    let word = words(line)[j];
    lemma_without_codes(word);
    assert(plain_words(line)[k] == without_codes(word));
    assert(word.contains(plain_words(line)[k][m]));
    let i = choose|i: int| 0 <= i < word.len() && word[i] == plain_words(line)[k][m];
    lemma_word_is_in_text(line, j, i);
}

proof fn lemma_joined_holds(parts: Seq<Seq<char>>, i: int)
    requires
        0 <= i < joined(parts).len(),
    ensures
        joined(parts)[i] == ' ' || exists|k: int, m: int|
            0 <= k < parts.len() && 0 <= m < parts[k].len() && #[trigger] parts[k][m]
                == joined(parts)[i],
    decreases parts.len(),
{
    if parts.len() == 1 {
        assert(parts[0][i] == joined(parts)[i]);
    } else if parts.len() > 1 {
        let head = parts.drop_last();
        let n = joined(head).len() as int;
        if i < n {
            lemma_joined_holds(head, i);
            assert(joined(parts)[i] == joined(head)[i]);
            if joined(head)[i] != ' ' {
                let (k, m) = choose|k: int, m: int|
                    0 <= k < head.len() && 0 <= m < head[k].len() && #[trigger] head[k][m]
                        == joined(head)[i];
                assert(parts[k][m] == joined(parts)[i]);
            }
        } else if i > n {
            assert(parts[parts.len() - 1][i - n - 1] == joined(parts)[i]);
        }
    }
}

/// A command without quotes, backslashes and number signs is run as its words
/// without field codes, and one on which the shell rules fail is, too.
pub proof fn law_plain_command_is_its_words(
    content: Seq<char>,
    kind: SessionKind,
    found: bool,
    line: Seq<char>,
)
    requires
        splits_plainly(content),
        entry_of(entry_lines(content)).command == Some(line),
        (forall|i: int|
            0 <= i < line.len() ==> #[trigger] line[i] != '\'' && line[i] != '"' && line[i] != '\\'
                && line[i] != '#') || shell_split(cleaned(line)) is None,
    ensures
        settled(parsed(content, kind), found) matches Some(session) ==> session.cmd == plain_words(
            line,
        ),
{
    lemma_words_of_cleaned(line);
    if shell_split(cleaned(line)) is Some {
        let clean = cleaned(line);
        assert forall|i: int| 0 <= i < clean.len() implies {
            let c = #[trigger] clean[i];
            &&& c != '\'' && c != '"' && c != '\\' && c != '#'
            &&& whitespace(c) ==> c == ' ' || c == '\t' || c == '\n'
        } by {
            lemma_joined_holds(plain_words(line), i);
            if clean[i] != ' ' {
                let (k, m) = choose|k: int, m: int|
                    0 <= k < plain_words(line).len() && 0 <= m < plain_words(line)[k].len()
                        && #[trigger] plain_words(line)[k][m] == clean[i];
                lemma_plain_word_is_in_text(line, k, m);
                lemma_plain_words(line, k);
                let j = choose|j: int| 0 <= j < line.len() && line[j] == clean[i];
                assert(line[j] != '#');
            }
        }
        assert(unquoted(clean));
    }
}

/// What is run is what the shell rules make of the cleaned command or, where they
/// fail, its words.
pub proof fn law_command_follows_the_split(line: Seq<char>, found: Seq<Seq<char>>)
    ensures
        command_of(line, Some(found)) == found,
        command_of(line, None) == words(line),
{
}

/// A file with a name and a command, both on the first line of their key, and no
/// line that hides it comes to a session of that whole name, of the kind of its
/// directory, and with the command that splitting by the shell rules gives; where
/// no word is left it comes to nothing. The session depends on the program to try,
/// where there is one.
pub proof fn law_file_comes_to_its_session(
    content: Seq<char>,
    kind: SessionKind,
    i: int,
    name: Seq<char>,
    j: int,
    line: Seq<char>,
)
    requires
        ({
            let lines = entry_lines(content);
            &&& 0 <= i < lines.len()
            &&& lines[i] == "Name="@ + name
            &&& forall|k: int| 0 <= k < i ==> !"Name="@.is_prefix_of(#[trigger] lines[k])
            &&& 0 <= j < lines.len()
            &&& lines[j] == "Exec="@ + line
            &&& forall|k: int| 0 <= k < j ==> !"Exec="@.is_prefix_of(#[trigger] lines[k])
            &&& forall|k: int|
                0 <= k < lines.len() ==> #[trigger] lines[k] != "Hidden=true"@ && lines[k]
                    != "NoDisplay=true"@
        }),
    ensures
        ({
            let cmd = match shell_split(cleaned(line)) {
                Some(found) => found,
                None => plain_words(line),
            };
            let session = SessionView { name, cmd, kind };
            parsed(content, kind) == if cmd.len() == 0 {
                CandidateView::Rejected
            } else {
                match entry_of(entry_lines(content)).try_exec {
                    Some(binary) => CandidateView::Conditional { binary, session },
                    None => CandidateView::Offered(session),
                }
            }
        }),
{
    let lines = entry_lines(content);
    lemma_first_value_at(lines, "Name="@, i, name);
    lemma_first_value_at(lines, "Exec="@, j, line);
    lemma_words_of_cleaned(line);
}

/// A file that a line hides, or that lacks a name or a command, comes to nothing.
pub proof fn law_file_comes_to_nothing(content: Seq<char>, kind: SessionKind, k: int)
    ensures
        ({
            let lines = entry_lines(content);
            &&& 0 <= k < lines.len() && (lines[k] == "Hidden=true"@ || lines[k]
                == "NoDisplay=true"@) ==> parsed(content, kind) == CandidateView::Rejected
            &&& (forall|m: int|
                0 <= m < lines.len() ==> !"Name="@.is_prefix_of(#[trigger] lines[m])) ==> parsed(
                content,
                kind,
            ) == CandidateView::Rejected
            &&& (forall|m: int|
                0 <= m < lines.len() ==> !"Exec="@.is_prefix_of(#[trigger] lines[m])) ==> parsed(
                content,
                kind,
            ) == CandidateView::Rejected
        }),
{
    law_entry_holds_nothing_else(entry_lines(content));
}

/// A session that depends on a program is offered exactly where the program is
/// found, and one that depends on none in any case.
pub proof fn law_condition_decides(session: SessionView, binary: Seq<char>, found: bool)
    ensures
        settled(CandidateView::Offered(session), found) == Some(session),
        settled(CandidateView::Conditional { binary, session }, found) == if found {
            Some(session)
        } else {
            None
        },
        settled(CandidateView::Rejected, found) is None,
{
}

/// A program named by a path is looked for there and nowhere else. Any other is
/// looked for in each directory of the search path, in turn, and nowhere without
/// one.
pub proof fn law_program_is_looked_for_on_the_path(name: Seq<char>, a: Seq<char>, b: Seq<char>)
    ensures
        name.contains('/') ==> binary_paths(name, Some(a)) == seq![name] && binary_paths(name, None)
            == seq![name],
        !name.contains('/') ==> binary_paths(name, Some(a.push(':') + b)) == binary_paths(
            name,
            Some(a),
        ) + binary_paths(name, Some(b)) && binary_paths(name, None).len() == 0,
{
    if !name.contains('/') {
        law_pieces_meet_at_separators(a, ':', b);
        assert(binary_paths(name, Some(a.push(':') + b)) =~= binary_paths(name, Some(a))
            + binary_paths(name, Some(b)));
    }
}

/// In one directory a program is looked for under its name, behind exactly the
/// slash that the directory ends with or, where it ends with none, one more.
pub proof fn law_program_is_looked_for_in_a_directory(name: Seq<char>, dir: Seq<char>)
    requires
        !name.contains('/'),
        !dir.contains(':'),
    ensures
        binary_paths(name, Some(dir)) == seq![
            if dir.len() == 0 {
                name
            } else if dir.last() == '/' {
                dir + name
            } else {
                dir + seq!['/'] + name
            },
        ],
{
    law_uncut_text_is_one_piece(dir, ':');
    assert(dir.push('/') =~= dir + seq!['/']);
    assert(binary_paths(name, Some(dir)) =~= seq![path_in(dir, name)]);
}

/// Entries and candidates are seen with all that they hold.
pub proof fn law_entry_is_seen_whole(entry: DesktopEntry, session: Session, binary: String)
    ensures
        entry@.hidden == entry.hidden,
        entry@.no_display == entry.no_display,
        match entry.name {
            Some(text) => entry@.name == Some(text@),
            None => entry@.name is None,
        },
        match entry.command {
            Some(text) => entry@.command == Some(text@),
            None => entry@.command is None,
        },
        match entry.try_exec {
            Some(text) => entry@.try_exec == Some(text@),
            None => entry@.try_exec is None,
        },
        Candidate::Rejected@ == CandidateView::Rejected,
        Candidate::Offered(session)@ == CandidateView::Offered(session@),
        (Candidate::Conditional { binary, session })@ == (CandidateView::Conditional {
            binary: binary@,
            session: session@,
        }),
{
}

} // verus!
