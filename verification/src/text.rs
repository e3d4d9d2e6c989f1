//! Character-level text handling: trimming, splitting, joining and comparing.
//!
//! Everything works on sequences of characters. Executable functions take
//! slices of `char`; [`chars_of`] and [`string_of`] go from and to strings.

use vstd::prelude::*;
use vstd::slice::slice_subrange;
use vstd::string::StringExecFns;

verus! {

/// `String::push`: appends one character at the end of the string.
pub assume_specification[ String::push ](s: &mut String, c: char)
    ensures
        final(s)@ == old(s)@.push(c),
;

/// `String::pop`: takes the last character off the end of the string and
/// returns it; an empty string gives `None` and stays empty.
pub assume_specification[ String::pop ](s: &mut String) -> (c: Option<char>)
    ensures
        old(s)@.len() == 0 ==> c is None && final(s)@ == old(s)@,
        old(s)@.len() > 0 ==> c == Some(old(s)@.last()) && final(s)@ == old(s)@.drop_last(),
;

/// The strings of a sequence, each as its characters.
pub open spec fn views(strings: Seq<String>) -> Seq<Seq<char>> {
    strings.map_values(|s: String| s@)
}

/// The characters of an optional string.
pub open spec fn view_option(s: Option<String>) -> Option<Seq<char>> {
    match s {
        Some(t) => Some(t@),
        None => None,
    }
}

/// The characters with the Unicode property White_Space.
pub open spec fn whitespace(c: char) -> bool {
    ||| '\u{9}' <= c <= '\u{d}'
    ||| c == ' '
    ||| c == '\u{85}'
    ||| c == '\u{a0}'
    ||| c == '\u{1680}'
    ||| '\u{2000}' <= c <= '\u{200a}'
    ||| c == '\u{2028}'
    ||| c == '\u{2029}'
    ||| c == '\u{202f}'
    ||| c == '\u{205f}'
    ||| c == '\u{3000}'
}

/// Whether `c` is white space.
pub fn is_whitespace(c: char) -> (r: bool)
    ensures
        r == whitespace(c),
{
    ('\u{9}' <= c && c <= '\u{d}') || c == ' ' || c == '\u{85}' || c == '\u{a0}' || c == '\u{1680}'
        || ('\u{2000}' <= c && c <= '\u{200a}') || c == '\u{2028}' || c == '\u{2029}' || c
        == '\u{202f}' || c == '\u{205f}' || c == '\u{3000}'
}

/// The characters of a string, in order.
pub fn chars_of(s: &str) -> (r: Vec<char>)
    ensures
        r@ == s@,
{
    let mut r: Vec<char> = Vec::new();
    for c in it: s.chars()
        invariant
            it.seq() == s@,
            r@ == s@.take(it.index()),
    {
        r.push(c);
    }
    r
}

/// A string made of the given characters.
pub fn string_of(s: &[char]) -> (r: String)
    ensures
        r@ == s@,
{
    let mut r = String::new();
    let mut i: usize = 0;
    while i < s.len()
        invariant
            i <= s@.len(),
            r@ == s@.take(i as int),
        decreases s@.len() - i,
    {
        r.push(s[i]);
        i = i + 1;
    }
    r
}

/// `s` without its leading white space.
pub open spec fn trim_start(s: Seq<char>) -> Seq<char>
    decreases s.len(),
{
    if s.len() > 0 && whitespace(s[0]) {
        trim_start(s.skip(1))
    } else {
        s
    }
}

/// `s` without its trailing white space.
pub open spec fn trim_end(s: Seq<char>) -> Seq<char>
    decreases s.len(),
{
    if s.len() > 0 && whitespace(s.last()) {
        trim_end(s.drop_last())
    } else {
        s
    }
}

/// `s` without leading and trailing white space.
pub open spec fn trimmed(s: Seq<char>) -> Seq<char> {
    trim_end(trim_start(s))
}

/// Takes leading and trailing white space off `s`.
pub fn trim<'a>(s: &'a [char]) -> (r: &'a [char])
    ensures
        r@ == trimmed(s@),
{
    let n: usize = s.len();
    let mut lo: usize = 0;
    proof {
        assert(s@.skip(0) =~= s@);
    }
    while lo < n && is_whitespace(s[lo])
        invariant
            n == s@.len(),
            lo <= n,
            trim_start(s@) == trim_start(s@.skip(lo as int)),
        decreases n - lo,
    {
        proof {
            assert(s@.skip(lo as int).skip(1) =~= s@.skip(lo + 1));
        }
        lo = lo + 1;
    }
    let ghost t = s@.skip(lo as int);
    let mut hi: usize = n;
    proof {
        assert(s@.subrange(lo as int, hi as int) =~= t);
    }
    while lo < hi && is_whitespace(s[hi - 1])
        invariant
            n == s@.len(),
            lo <= hi <= n,
            trim_end(t) == trim_end(s@.subrange(lo as int, hi as int)),
        decreases hi - lo,
    {
        proof {
            assert(s@.subrange(lo as int, hi as int).drop_last() =~= s@.subrange(
                lo as int,
                hi - 1,
            ));
        }
        hi = hi - 1;
    }
    slice_subrange(s, lo, hi)
}

/// The length of the longest prefix of `s` that holds no character of `stop`.
pub open spec fn prefix_without(s: Seq<char>, stop: spec_fn(char) -> bool) -> nat
    decreases s.len(),
{
    if s.len() == 0 || stop(s[0]) {
        0
    } else {
        1 + prefix_without(s.skip(1), stop)
    }
}

proof fn lemma_prefix_without(s: Seq<char>, stop: spec_fn(char) -> bool, n: nat)
    requires
        n <= s.len(),
        forall|i: int| 0 <= i < n ==> !stop(#[trigger] s[i]),
        n < s.len() ==> stop(s[n as int]),
    ensures
        prefix_without(s, stop) == n,
    decreases n,
{
    if n > 0 {
        assert(!stop(s[0]));
        let r = s.skip(1);
        assert forall|i: int| 0 <= i < n - 1 implies !stop(#[trigger] r[i]) by {
            assert(r[i] == s[i + 1]);
        }
        lemma_prefix_without(r, stop, (n - 1) as nat);
    }
}

/// [`prefix_without`] is the length of a prefix, and that prefix holds no stop.
pub proof fn lemma_prefix_has_none(s: Seq<char>, stop: spec_fn(char) -> bool)
    ensures
        prefix_without(s, stop) <= s.len(),
        forall|i: int| 0 <= i < prefix_without(s, stop) ==> !stop(#[trigger] s[i]),
    decreases s.len(),
{
    if s.len() > 0 && !stop(s[0]) {
        let r = s.skip(1);
        lemma_prefix_has_none(r, stop);
        assert forall|i: int| 0 <= i < prefix_without(s, stop) implies !stop(#[trigger] s[i]) by {
            if i > 0 {
                assert(s[i] == r[i - 1]);
            }
        }
    }
}

/// The test for one given character.
pub open spec fn is_char(sep: char) -> spec_fn(char) -> bool {
    |c: char| c == sep
}

/// The pieces of `s` between the occurrences of `sep`; one more piece than
/// there are separators.
pub open spec fn pieces(s: Seq<char>, sep: char) -> Seq<Seq<char>>
    decreases s.len(),
{
    let n = prefix_without(s, is_char(sep));
    if n < s.len() {
        seq![s.take(n as int)] + pieces(s.skip(n as int + 1), sep)
    } else {
        seq![s]
    }
}

/// The characters held by each of several slices.
pub open spec fn slices(parts: Seq<&[char]>) -> Seq<Seq<char>> {
    parts.map_values(|p: &[char]| p@)
}

/// The characters held by each of several vectors.
pub open spec fn texts(parts: Seq<Vec<char>>) -> Seq<Seq<char>> {
    parts.map_values(|p: Vec<char>| p@)
}

/// Cuts `s` at every `sep`.
pub fn split_at_char<'a>(s: &'a [char], sep: char) -> (r: Vec<&'a [char]>)
    ensures
        slices(r@) == pieces(s@, sep),
{
    let n: usize = s.len();
    let mut r: Vec<&'a [char]> = Vec::new();
    let mut start: usize = 0;
    let ghost stop = is_char(sep);
    proof {
        assert(s@.skip(0) =~= s@);
        assert(slices(r@) + pieces(s@.skip(0), sep) =~= pieces(s@, sep));
    }
    let mut i: usize = 0;
    while i < n
        invariant
            n == s@.len(),
            start <= i <= n,
            stop == is_char(sep),
            forall|k: int| start <= k < i ==> s@[k] != sep,
            pieces(s@, sep) == slices(r@) + pieces(s@.skip(start as int), sep),
        decreases n - i,
    {
        if s[i] == sep {
            let ghost rest = s@.skip(start as int);
            proof {
                lemma_prefix_without(rest, stop, (i - start) as nat);
                assert(rest.take(i - start) =~= s@.subrange(start as int, i as int));
                assert(rest.skip(i - start + 1) =~= s@.skip(i + 1));
            }
            let ghost before = r@;
            let part = slice_subrange(s, start, i);
            r.push(part);
            start = i + 1;
            proof {
                assert(slices(r@) =~= slices(before) + seq![part@]);
                assert(slices(before) + (seq![part@] + pieces(s@.skip(start as int), sep))
                    =~= slices(r@) + pieces(s@.skip(start as int), sep));
            }
        }
        i = i + 1;
    }
    let ghost rest = s@.skip(start as int);
    proof {
        lemma_prefix_without(rest, stop, (n - start) as nat);
        assert(rest =~= s@.subrange(start as int, n as int));
    }
    let ghost before = r@;
    let part = slice_subrange(s, start, n);
    r.push(part);
    proof {
        assert(slices(r@) =~= slices(before) + seq![part@]);
    }
    r
}

/// The words of `s`: its maximal runs of characters other than white space.
pub open spec fn words(s: Seq<char>) -> Seq<Seq<char>>
    decreases s.len(),
{
    if s.len() == 0 {
        seq![]
    } else if whitespace(s[0]) {
        words(s.skip(1))
    } else {
        let n = prefix_without(s, |c: char| whitespace(c));
        proof {
            lemma_prefix_has_none(s, |c: char| whitespace(c));
        }
        seq![s.take(n as int)] + words(s.skip(n as int))
    }
}

/// Splits `s` into its words.
pub fn split_words<'a>(s: &'a [char]) -> (r: Vec<&'a [char]>)
    ensures
        slices(r@) == words(s@),
{
    let n: usize = s.len();
    let mut r: Vec<&'a [char]> = Vec::new();
    let mut i: usize = 0;
    let ghost stop = |c: char| whitespace(c);
    proof {
        assert(s@.skip(0) =~= s@);
        assert(slices(r@) + words(s@) =~= words(s@));
    }
    while i < n
        invariant
            n == s@.len(),
            i <= n,
            stop == (|c: char| whitespace(c)),
            words(s@) == slices(r@) + words(s@.skip(i as int)),
        decreases n - i,
    {
        let ghost rest = s@.skip(i as int);
        if is_whitespace(s[i]) {
            proof {
                assert(rest.skip(1) =~= s@.skip(i + 1));
            }
            i = i + 1;
        } else {
            let start: usize = i;
            while i < n && !is_whitespace(s[i])
                invariant
                    n == s@.len(),
                    start <= i <= n,
                    forall|k: int| start <= k < i ==> !whitespace(s@[k]),
                decreases n - i,
            {
                i = i + 1;
            }
            proof {
                lemma_prefix_without(rest, stop, (i - start) as nat);
                assert(rest.take(i - start) =~= s@.subrange(start as int, i as int));
                assert(rest.skip(i - start) =~= s@.skip(i as int));
            }
            let ghost before = r@;
            let part = slice_subrange(s, start, i);
            r.push(part);
            proof {
                assert(slices(r@) =~= slices(before) + seq![part@]);
                assert(slices(before) + (seq![part@] + words(s@.skip(i as int))) =~= slices(r@)
                    + words(s@.skip(i as int)));
            }
        }
    }
    proof {
        assert(s@.skip(n as int) =~= Seq::<char>::empty());
        assert(slices(r@) + words(s@.skip(n as int)) =~= slices(r@));
    }
    r
}

/// The given words with one space between each two neighbours.
pub open spec fn joined(parts: Seq<Seq<char>>) -> Seq<char>
    decreases parts.len(),
{
    if parts.len() == 0 {
        seq![]
    } else if parts.len() == 1 {
        parts[0]
    } else {
        joined(parts.drop_last()).push(' ') + parts.last()
    }
}

/// Joins words with single spaces.
pub fn join_words(parts: &Vec<Vec<char>>) -> (r: String)
    ensures
        r@ == joined(texts(parts@)),
{
    let mut r = String::new();
    let mut i: usize = 0;
    proof {
        assert(texts(parts@).take(0) =~= seq![]);
    }
    while i < parts.len()
        invariant
            i <= parts@.len(),
            r@ == joined(texts(parts@).take(i as int)),
        decreases parts@.len() - i,
    {
        if i > 0 {
            r.push(' ');
        }
        let word = string_of(parts[i].as_slice());
        r.append(word.as_str());
        proof {
            let now = texts(parts@).take(i + 1);
            assert(now.drop_last() =~= texts(parts@).take(i as int));
            assert(now.last() == parts@[i as int]@);
        }
        i = i + 1;
    }
    proof {
        assert(texts(parts@).take(i as int) =~= texts(parts@));
    }
    r
}

/// Whether two slices hold the same characters.
pub fn same_text(a: &[char], b: &[char]) -> (r: bool)
    ensures
        r == (a@ == b@),
{
    if a.len() != b.len() {
        return false;
    }
    let mut i: usize = 0;
    while i < a.len()
        invariant
            a@.len() == b@.len(),
            i <= a@.len(),
            forall|k: int| 0 <= k < i ==> a@[k] == b@[k],
        decreases a@.len() - i,
    {
        if a[i] != b[i] {
            return false;
        }
        i = i + 1;
    }
    assert(a@ =~= b@);
    true
}

/// What follows `prefix` in `s`, where `s` starts with `prefix`.
pub open spec fn after_prefix(s: Seq<char>, prefix: Seq<char>) -> Option<Seq<char>> {
    if prefix.is_prefix_of(s) {
        Some(s.skip(prefix.len() as int))
    } else {
        None
    }
}

/// What follows `prefix` in `s`, or `None` where `s` does not start with it.
pub fn strip_prefix<'a>(s: &'a [char], prefix: &[char]) -> (r: Option<&'a [char]>)
    ensures
        match r {
            Some(rest) => after_prefix(s@, prefix@) == Some(rest@),
            None => after_prefix(s@, prefix@) is None,
        },
{
    if s.len() < prefix.len() {
        return None;
    }
    let head = slice_subrange(s, 0, prefix.len());
    if same_text(head, prefix) {
        let rest = slice_subrange(s, prefix.len(), s.len());
        assert(rest@ =~= s@.skip(prefix@.len() as int));
        Some(rest)
    } else {
        None
    }
}

/// Whether `c` occurs in `s`.
pub fn contains_char(s: &[char], c: char) -> (r: bool)
    ensures
        r == s@.contains(c),
{
    let mut i: usize = 0;
    while i < s.len()
        invariant
            i <= s@.len(),
            forall|k: int| 0 <= k < i ==> s@[k] != c,
        decreases s@.len() - i,
    {
        if s[i] == c {
            return true;
        }
        i = i + 1;
    }
    false
}

proof fn lemma_trim_start_ends(s: Seq<char>)
    ensures
        trim_start(s).len() > 0 ==> !whitespace(trim_start(s)[0]),
    decreases s.len(),
{
    if s.len() > 0 && whitespace(s[0]) {
        lemma_trim_start_ends(s.skip(1));
    }
}

proof fn lemma_trim_end_ends(s: Seq<char>)
    ensures
        trim_end(s).len() > 0 ==> trim_end(s)[0] == s[0] && !whitespace(trim_end(s).last()),
    decreases s.len(),
{
    if s.len() > 0 && whitespace(s.last()) {
        lemma_trim_end_ends(s.drop_last());
    }
}

/// A trimmed text neither starts nor ends with white space.
pub proof fn lemma_trimmed_ends(s: Seq<char>)
    ensures
        trimmed(s).len() > 0 ==> !whitespace(trimmed(s)[0]) && !whitespace(trimmed(s).last()),
{
    lemma_trim_start_ends(s);
    lemma_trim_end_ends(trim_start(s));
    if trimmed(s).len() > 0 && trim_start(s).len() == 0 {
        assert(trimmed(s) == trim_start(s));
    }
}

/// Trimming a trimmed text changes nothing.
pub proof fn lemma_trimmed_twice(s: Seq<char>)
    ensures
        trimmed(trimmed(s)) == trimmed(s),
{
    lemma_trimmed_ends(s);
}

/// Whether `w` can be a word: not empty, and without white space.
pub open spec fn is_word(w: Seq<char>) -> bool {
    w.len() > 0 && forall|i: int| 0 <= i < w.len() ==> !whitespace(#[trigger] w[i])
}

/// The words of a text are words.
pub proof fn lemma_words_are_words(s: Seq<char>, k: int)
    requires
        0 <= k < words(s).len(),
    ensures
        is_word(words(s)[k]),
    decreases s.len(),
{
    if s.len() > 0 {
        if whitespace(s[0]) {
            lemma_words_are_words(s.skip(1), k);
        } else {
            let stop = |c: char| whitespace(c);
            let n = prefix_without(s, stop);
            lemma_prefix_has_none(s, stop);
            if k == 0 {
                assert forall|i: int| 0 <= i < n implies !whitespace(
                    #[trigger] s.take(n as int)[i],
                ) by {
                    assert(!stop(s[i]));
                }
            } else {
                lemma_words_are_words(s.skip(n as int), k - 1);
            }
        }
    }
}

proof fn lemma_joined_front(parts: Seq<Seq<char>>)
    requires
        parts.len() > 1,
    ensures
        joined(parts) == parts[0].push(' ') + joined(parts.skip(1)),
    decreases parts.len(),
{
    let rest = parts.skip(1);
    let head = parts.drop_last();
    if parts.len() == 2 {
        assert(joined(head) == parts[0]);
        assert(joined(rest) == parts[1]);
    } else {
        lemma_joined_front(head);
        assert(head.skip(1) =~= rest.drop_last());
        assert(joined(parts) =~= parts[0].push(' ') + joined(rest));
    }
}

/// Joining words and splitting them again changes nothing.
pub proof fn lemma_words_of_joined(parts: Seq<Seq<char>>)
    requires
        forall|k: int| 0 <= k < parts.len() ==> is_word(#[trigger] parts[k]),
    ensures
        words(joined(parts)) == parts,
    decreases parts.len(),
{
    let s = joined(parts);
    if parts.len() == 0 {
        assert(words(s) =~= parts);
    } else {
        let w = parts[0];
        let stop = |c: char| whitespace(c);
        let rest = parts.skip(1);
        assert(is_word(w));
        assert(!whitespace(w[0]));
        if parts.len() == 1 {
            lemma_prefix_without(s, stop, w.len());
            assert(s.take(w.len() as int) =~= w);
            assert(s.skip(w.len() as int) =~= seq![]);
            assert(words(s.skip(w.len() as int)) =~= seq![]);
            assert(words(s) =~= parts);
        } else {
            lemma_joined_front(parts);
            assert forall|k: int| 0 <= k < rest.len() implies is_word(#[trigger] rest[k]) by {
                assert(rest[k] == parts[k + 1]);
            }
            lemma_words_of_joined(rest);
            assert forall|i: int| 0 <= i < w.len() implies !stop(#[trigger] s[i]) by {
                assert(s[i] == w[i]);
            }
            assert(s[w.len() as int] == ' ');
            lemma_prefix_without(s, stop, w.len());
            assert(s.take(w.len() as int) =~= w);
            let after = s.skip(w.len() as int);
            assert(after[0] == ' ');
            assert(after.skip(1) =~= joined(rest));
            assert(words(after) == rest);
            assert(words(s) =~= parts);
        }
    }
}

/// The characters of several strings are those of each string, in order.
pub proof fn law_views_keep_each_string(strings: Seq<String>, i: int)
    requires
        0 <= i < strings.len(),
    ensures
        views(strings).len() == strings.len(),
        views(strings)[i] == strings[i]@,
{
}

/// The characters of an optional string are those of the string, if there is one.
pub proof fn law_view_option_keeps_the_string(s: String)
    ensures
        view_option(Some(s)) == Some(s@),
        view_option(None) == None::<Seq<char>>,
{
}

/// The characters of several slices and of several vectors are those of each.
pub proof fn law_parts_keep_each_text(a: Seq<&[char]>, b: Seq<Vec<char>>)
    ensures
        slices(a).len() == a.len(),
        forall|i: int| 0 <= i < a.len() ==> #[trigger] slices(a)[i] == a[i]@,
        texts(b).len() == b.len(),
        forall|i: int| 0 <= i < b.len() ==> #[trigger] texts(b)[i] == b[i]@,
{
}

proof fn lemma_trim_start_skips(blank: Seq<char>, rest: Seq<char>)
    requires
        forall|i: int| 0 <= i < blank.len() ==> whitespace(#[trigger] blank[i]),
        rest.len() > 0 ==> !whitespace(rest[0]),
    ensures
        trim_start(blank + rest) == rest,
    decreases blank.len(),
{
    let s = blank + rest;
    if blank.len() == 0 {
        assert(s =~= rest);
    } else {
        let t = blank.skip(1);
        assert(whitespace(blank[0]) && s[0] == blank[0]);
        assert forall|i: int| 0 <= i < t.len() implies whitespace(#[trigger] t[i]) by {
            assert(t[i] == blank[i + 1]);
        }
        assert(s.skip(1) =~= t + rest);
        lemma_trim_start_skips(t, rest);
    }
}

proof fn lemma_trim_end_drops(rest: Seq<char>, blank: Seq<char>)
    requires
        forall|i: int| 0 <= i < blank.len() ==> whitespace(#[trigger] blank[i]),
        rest.len() > 0 ==> !whitespace(rest.last()),
    ensures
        trim_end(rest + blank) == rest,
    decreases blank.len(),
{
    let s = rest + blank;
    if blank.len() == 0 {
        assert(s =~= rest);
    } else {
        let t = blank.drop_last();
        assert(whitespace(blank[blank.len() - 1]) && s.last() == blank.last());
        assert(s.drop_last() =~= rest + t);
        lemma_trim_end_drops(rest, t);
    }
}

/// Trimming takes the white space around a text off, all of it, and nothing else.
pub proof fn law_trimmed_is_what_stands_between(
    before: Seq<char>,
    text: Seq<char>,
    after: Seq<char>,
)
    requires
        forall|i: int| 0 <= i < before.len() ==> whitespace(#[trigger] before[i]),
        forall|i: int| 0 <= i < after.len() ==> whitespace(#[trigger] after[i]),
        text.len() > 0,
        !whitespace(text[0]),
        !whitespace(text.last()),
    ensures
        trimmed(before + text + after) == text,
{
    assert(before + text + after =~= before + (text + after));
    lemma_trim_start_skips(before, text + after);
    lemma_trim_end_drops(text, after);
}

/// Nothing is left of white space when it is trimmed.
pub proof fn law_blank_is_trimmed_away(s: Seq<char>)
    requires
        forall|i: int| 0 <= i < s.len() ==> whitespace(#[trigger] s[i]),
    ensures
        trimmed(s).len() == 0,
{
    assert(s + Seq::<char>::empty() =~= s);
    lemma_trim_start_skips(s, Seq::empty());
}

proof fn lemma_prefix_stops(s: Seq<char>, stop: spec_fn(char) -> bool)
    ensures
        prefix_without(s, stop) <= s.len(),
        prefix_without(s, stop) < s.len() ==> stop(s[prefix_without(s, stop) as int]),
    decreases s.len(),
{
    if s.len() > 0 && !stop(s[0]) {
        lemma_prefix_stops(s.skip(1), stop);
    }
}

/// A text is cut at every separator: what stands on either side of one is cut on
/// its own.
pub proof fn law_pieces_meet_at_separators(a: Seq<char>, sep: char, b: Seq<char>)
    ensures
        pieces(a.push(sep) + b, sep) == pieces(a, sep) + pieces(b, sep),
    decreases a.len(),
{
    let stop = is_char(sep);
    let s = a.push(sep) + b;
    let n = prefix_without(a, stop);
    lemma_prefix_has_none(a, stop);
    lemma_prefix_stops(a, stop);
    assert forall|i: int| 0 <= i < n implies !stop(#[trigger] s[i]) by {
        assert(s[i] == a[i]);
    }
    assert(s[n as int] == if n < a.len() {
        a[n as int]
    } else {
        sep
    });
    lemma_prefix_without(s, stop, n);
    assert(s.take(n as int) =~= a.take(n as int));
    if n < a.len() {
        let rest = a.skip(n as int + 1);
        law_pieces_meet_at_separators(rest, sep, b);
        assert(s.skip(n as int + 1) =~= rest.push(sep) + b);
        assert(seq![a.take(n as int)] + (pieces(rest, sep) + pieces(b, sep)) =~= pieces(a, sep)
            + pieces(b, sep));
    } else {
        assert(a.take(n as int) =~= a);
        assert(s.skip(n as int + 1) =~= b);
    }
}

/// A text without the separator is one piece, and stays as it is.
pub proof fn law_uncut_text_is_one_piece(s: Seq<char>, sep: char)
    requires
        !s.contains(sep),
    ensures
        pieces(s, sep) == seq![s],
{
    let stop = is_char(sep);
    lemma_prefix_stops(s, stop);
    let n = prefix_without(s, stop);
    if n < s.len() {
        assert(s.contains(s[n as int]));
    }
}

/// A text is cut into words at white space: what stands on either side of a
/// white space character has its words on its own.
pub proof fn law_words_meet_at_white_space(a: Seq<char>, c: char, b: Seq<char>)
    requires
        whitespace(c),
    ensures
        words(a.push(c) + b) == words(a) + words(b),
    decreases a.len(),
{
    let stop = |c: char| whitespace(c);
    let s = a.push(c) + b;
    if a.len() == 0 {
        assert(s[0] == c);
        assert(s.skip(1) =~= b);
        assert(words(a) + words(b) =~= words(b));
    } else if whitespace(a[0]) {
        assert(s[0] == a[0]);
        assert(s.skip(1) =~= a.skip(1).push(c) + b);
        law_words_meet_at_white_space(a.skip(1), c, b);
    } else {
        let n = prefix_without(a, stop);
        lemma_prefix_has_none(a, stop);
        lemma_prefix_stops(a, stop);
        assert(n > 0);
        assert forall|i: int| 0 <= i < n implies !stop(#[trigger] s[i]) by {
            assert(s[i] == a[i]);
        }
        assert(s[n as int] == if n < a.len() {
            a[n as int]
        } else {
            c
        });
        lemma_prefix_without(s, stop, n);
        assert(s[0] == a[0]);
        assert(s.take(n as int) =~= a.take(n as int));
        let rest = a.skip(n as int);
        assert(s.skip(n as int) =~= rest.push(c) + b);
        law_words_meet_at_white_space(rest, c, b);
        assert(seq![a.take(n as int)] + (words(rest) + words(b)) =~= words(a) + words(b));
    }
}

/// A text without white space is one word, and stays as it is.
pub proof fn law_word_stands_alone(w: Seq<char>)
    requires
        w.len() > 0,
        forall|i: int| 0 <= i < w.len() ==> !whitespace(#[trigger] w[i]),
    ensures
        words(w) == seq![w],
{
    assert(is_word(w));
    lemma_words_of_joined(seq![w]);
}

/// White space holds no words.
pub proof fn law_blank_has_no_words(s: Seq<char>)
    requires
        forall|i: int| 0 <= i < s.len() ==> whitespace(#[trigger] s[i]),
    ensures
        words(s).len() == 0,
    decreases s.len(),
{
    if s.len() > 0 {
        let t = s.skip(1);
        assert(whitespace(s[0]));
        assert forall|i: int| 0 <= i < t.len() implies whitespace(#[trigger] t[i]) by {
            assert(t[i] == s[i + 1]);
        }
        law_blank_has_no_words(t);
    }
}

/// Two lists of words joined to one have a single space where they meet.
pub proof fn law_joined_lists_meet_at_a_space(a: Seq<Seq<char>>, b: Seq<Seq<char>>)
    requires
        a.len() > 0,
        b.len() > 0,
    ensures
        joined(a + b) == joined(a) + seq![' '] + joined(b),
    decreases b.len(),
{
    let all = a + b;
    assert(all.drop_last() =~= a + b.drop_last());
    assert(all.last() == b.last());
    if b.len() == 1 {
        assert(b.drop_last() =~= seq![]);
        assert(all.drop_last() =~= a);
        assert(joined(all) =~= joined(a) + seq![' '] + joined(b));
    } else {
        law_joined_lists_meet_at_a_space(a, b.drop_last());
        assert(joined(all) =~= joined(a) + seq![' '] + joined(b));
    }
}

/// One word is joined to itself, and none to nothing.
pub proof fn law_one_word_is_joined_to_itself(w: Seq<char>)
    ensures
        joined(seq![w]) == w,
        joined(seq![]).len() == 0,
{
}

/// What follows a prefix is the rest of the text, all of it; a text that is not
/// the prefix and a rest has none.
pub proof fn law_prefix_and_rest(prefix: Seq<char>, rest: Seq<char>, s: Seq<char>)
    ensures
        after_prefix(prefix + rest, prefix) == Some(rest),
        match after_prefix(s, prefix) {
            Some(found) => s == prefix + found,
            None => s != prefix + rest,
        },
{
    assert((prefix + rest).skip(prefix.len() as int) =~= rest);
    assert(prefix.is_prefix_of(prefix + rest)) by {
        assert((prefix + rest).subrange(0, prefix.len() as int) =~= prefix);
    }
    if prefix.is_prefix_of(s) {
        assert(s =~= prefix + s.skip(prefix.len() as int));
    }
}

} // verus!
