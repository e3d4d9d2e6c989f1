//! Where sessions are looked for, and how those found are put in order.

use crate::desktop::{parse_desktop_file, parsed, splits_plainly, Candidate, CandidateView};
use crate::order::{
    comes_before, lemma_before_irreflexive, lemma_before_total, lemma_before_transitive,
    text_before,
};
use crate::session::{session_views, Session, SessionKind, SessionView};
use crate::text::{chars_of, same_text, view_option, views};
use vstd::prelude::*;
use vstd::relations::{sorted_by, total_ordering};
use vstd::seq_lib::lemma_sorted_unique;

verus! {

/// The lower case of a text, as `str::to_lowercase` gives it.
pub uninterp spec fn lowercase(s: Seq<char>) -> Seq<char>;

/// `str::to_lowercase`: the lower case of a text under the Unicode case
/// mappings, which depends on the text alone. What the mappings are is not
/// said here.
pub assume_specification[ str::to_lowercase ](s: &str) -> (r: String)
    ensures
        r@ == lowercase(s@),
;

/// Whether the session found as `a` stands no later than the one found as `b`:
/// by their keys, and under equal keys by when they were found.
pub open spec fn no_later(keys: Seq<Seq<char>>) -> spec_fn(int, int) -> bool {
    |a: int, b: int| text_before(keys[a], keys[b]) || (keys[a] == keys[b] && a <= b)
}

/// The positions of the keys, in the order of the keys; equal keys keep their
/// order.
pub open spec fn stable_order(keys: Seq<Seq<char>>) -> Seq<int> {
    Seq::new(keys.len(), |i: int| i).sort_by(no_later(keys))
}

/// `found` in the given order.
pub open spec fn reordered(found: Seq<SessionView>, order: Seq<int>) -> Seq<SessionView> {
    order.map_values(|i: int| found[i])
}

/// `s` with only the first session of each run of equal names.
pub open spec fn without_repeats(s: Seq<SessionView>) -> Seq<SessionView>
    decreases s.len(),
{
    if s.len() == 0 {
        seq![]
    } else {
        let head = without_repeats(s.drop_last());
        if head.len() > 0 && head.last().name == s.last().name {
            head
        } else {
            head.push(s.last())
        }
    }
}

/// The sessions as they are offered: in the order of their keys, and of
/// neighbours with the same name only the first.
pub open spec fn arranged(found: Seq<SessionView>, keys: Seq<Seq<char>>) -> Seq<SessionView> {
    without_repeats(reordered(found, stable_order(keys)))
}

/// The keys by which sessions are ordered: their names in lower case.
pub open spec fn name_keys(found: Seq<SessionView>) -> Seq<Seq<char>> {
    found.map_values(|s: SessionView| lowercase(s.name))
}

/// Positions as integers.
pub open spec fn positions(s: Seq<usize>) -> Seq<int> {
    s.map_values(|i: usize| i as int)
}

/// [`no_later`] orders all positions totally.
pub proof fn lemma_no_later_total(keys: Seq<Seq<char>>)
    ensures
        total_ordering(no_later(keys)),
{
    let r = no_later(keys);
    assert forall|x: int, y: int| #[trigger] r(x, y) && #[trigger] r(y, x) implies x == y by {
        if text_before(keys[x], keys[y]) {
            lemma_before_irreflexive(keys[x]);
            if text_before(keys[y], keys[x]) {
                lemma_before_transitive(keys[x], keys[y], keys[x]);
            }
        } else if text_before(keys[y], keys[x]) {
            lemma_before_irreflexive(keys[x]);
        }
    }
    assert forall|x: int, y: int, z: int| #[trigger] r(x, y) && #[trigger] r(y, z) implies r(
        x,
        z,
    ) by {
        if text_before(keys[x], keys[y]) && text_before(keys[y], keys[z]) {
            lemma_before_transitive(keys[x], keys[y], keys[z]);
        }
    }
    assert forall|x: int, y: int| #[trigger] r(x, y) || #[trigger] r(y, x) by {
        lemma_before_total(keys[x], keys[y]);
    }
}

/// The positions of the keys in their order.
fn sorted_positions(keys: &Vec<String>) -> (r: Vec<usize>)
    ensures
        positions(r@) == stable_order(views(keys@)),
{
    let ghost ks = views(keys@);
    let ghost leq = no_later(ks);
    let mut texts: Vec<Vec<char>> = Vec::new();
    let mut order: Vec<usize> = Vec::new();
    let mut i: usize = 0;
    proof {
        lemma_no_later_total(ks);
        assert(positions(order@) =~= Seq::new(0, |k: int| k));
    }
    while i < keys.len()
        invariant
            i <= keys@.len(),
            ks == views(keys@),
            leq == no_later(ks),
            total_ordering(leq),
            texts@.len() == i,
            forall|k: int| 0 <= k < i ==> (#[trigger] texts@[k])@ == ks[k],
            order@.len() == i,
            forall|q: int| 0 <= q < i ==> (#[trigger] order@[q]) < i,
            sorted_by(positions(order@), leq),
            positions(order@).to_multiset() == Seq::new(i as nat, |k: int| k).to_multiset(),
        decreases keys@.len() - i,
    {
        let text = chars_of(keys[i].as_str());
        let mut p: usize = order.len();
        assert(text@ == ks[i as int]);
        while p > 0 && comes_before(text.as_slice(), texts[order[p - 1]].as_slice())
            invariant
                i < keys@.len(),
                ks == views(keys@),
                text@ == ks[i as int],
                texts@.len() == i,
                forall|k: int| 0 <= k < i ==> (#[trigger] texts@[k])@ == ks[k],
                order@.len() == i,
                forall|q: int| 0 <= q < i ==> (#[trigger] order@[q]) < i,
                p <= i,
                forall|q: int|
                    p <= q < i ==> text_before(ks[i as int], ks[#[trigger] order@[q] as int]),
            decreases p,
        {
            p = p - 1;
        }
        let ghost before = order@;
        order.insert(p, i);
        texts.push(text);
        proof {
            let old_pos = positions(before);
            let new_pos = positions(order@);
            let here = i as int;
            assert(new_pos =~= old_pos.insert(p as int, here));
            assert forall|a: int, b: int| 0 <= a < b < new_pos.len() implies #[trigger] leq(
                new_pos[a],
                new_pos[b],
            ) by {
                let a0 = if a < p { a } else { a - 1 };
                let b0 = if b < p { b } else { b - 1 };
                if a == p {
                    assert(new_pos[b] == old_pos[b0] && old_pos[b0] == before[b0]);
                    assert(text_before(ks[here], ks[before[b0] as int]));
                } else if b == p {
                    assert(new_pos[a] == old_pos[a]);
                    let last = before[p - 1] as int;
                    assert(old_pos[p - 1] == last);
                    assert(!text_before(ks[here], ks[last]));
                    lemma_before_total(ks[here], ks[last]);
                    assert(leq(last, here));
                    if a < p - 1 {
                        assert(leq(old_pos[a], old_pos[p - 1]));
                    }
                } else {
                    assert(leq(old_pos[a0], old_pos[b0]));
                }
            }
            let upto = Seq::new(i as nat, |k: int| k);
            assert(Seq::new((i + 1) as nat, |k: int| k) =~= upto.push(here));
            vstd::seq_lib::to_multiset_build(upto, here);
            vstd::seq_lib::to_multiset_insert(old_pos, p as int, here);
            assert forall|q: int| 0 <= q < i + 1 implies (#[trigger] order@[q]) < i + 1 by {
                let q0 = if q < p { q } else { q - 1 };
                if q != p {
                    assert(order@[q] == before[q0]);
                }
            }
        }
        i = i + 1;
    }
    proof {
        let all = Seq::new(ks.len(), |k: int| k);
        all.lemma_sort_by_ensures(leq);
        lemma_sorted_unique(positions(order@), all.sort_by(leq), leq);
    }
    order
}

/// Puts sessions in the order of their keys and drops repeated neighbours.
pub fn arrange_sessions(found: &Vec<Session>, keys: &Vec<String>) -> (r: Vec<Session>)
    requires
        found@.len() == keys@.len(),
    ensures
        session_views(r@) == arranged(session_views(found@), views(keys@)),
{
    let order = sorted_positions(keys);
    let ghost fv = session_views(found@);
    let ghost line = reordered(fv, positions(order@));
    let mut r: Vec<Session> = Vec::new();
    let mut i: usize = 0;
    proof {
        lemma_stable_order(views(keys@));
        assert(line.take(0) =~= seq![]);
        assert(session_views(r@) =~= seq![]);
    }
    while i < order.len()
        invariant
            i <= order@.len(),
            fv == session_views(found@),
            line == reordered(fv, positions(order@)),
            forall|q: int| 0 <= q < order@.len() ==> (#[trigger] positions(order@)[q]) < fv.len(),
            session_views(r@) == without_repeats(line.take(i as int)),
        decreases order@.len() - i,
    {
        assert(positions(order@)[i as int] == order@[i as int]);
        let session = &found[order[i]];
        let ghost before = r@;
        proof {
            assert(line.take(i + 1).drop_last() =~= line.take(i as int));
            assert(line.take(i + 1).last() == session@);
            assert(r@.len() > 0 ==> session_views(r@).last() == r@.last()@);
        }
        let repeated = r.len() > 0 && r[r.len() - 1].name == session.name;
        if !repeated {
            r.push(session.clone());
            assert(session_views(r@) =~= session_views(before).push(session@));
        }
        i = i + 1;
    }
    assert(line.take(i as int) =~= line);
    r
}

/// The sessions to offer, out of those found: in the order of their names
/// whatever the case of the letters, those found first standing first where
/// that leaves them equal, and of neighbours with the same name only the first.
pub fn discover_sessions(found: &Vec<Session>) -> (r: Vec<Session>)
    ensures
        session_views(r@) == arranged(
            session_views(found@),
            name_keys(session_views(found@)),
        ),
{
    let mut keys: Vec<String> = Vec::new();
    let mut i: usize = 0;
    while i < found.len()
        invariant
            i <= found@.len(),
            views(keys@) == name_keys(session_views(found@)).take(i as int),
        decreases found@.len() - i,
    {
        let ghost before = keys@;
        let key = found[i].name.as_str().to_lowercase();
        keys.push(key);
        proof {
            let all = name_keys(session_views(found@));
            assert(views(keys@) =~= views(before).push(key@));
            assert(all.take(i + 1) =~= all.take(i as int).push(all[i as int]));
        }
        i = i + 1;
    }
    proof {
        let all = name_keys(session_views(found@));
        assert(all.take(i as int) =~= all);
    }
    arrange_sessions(found, &keys)
}

/// [`stable_order`] lists every position once, in order.
pub proof fn lemma_stable_order(keys: Seq<Seq<char>>)
    ensures
        stable_order(keys).len() == keys.len(),
        sorted_by(stable_order(keys), no_later(keys)),
        stable_order(keys).no_duplicates(),
        forall|q: int|
            0 <= q < keys.len() ==> 0 <= #[trigger] stable_order(keys)[q] < keys.len(),
        forall|i: int| 0 <= i < keys.len() ==> #[trigger] stable_order(keys).contains(i),
{
    let all = Seq::new(keys.len(), |i: int| i);
    let order = stable_order(keys);
    lemma_no_later_total(keys);
    all.lemma_sort_by_ensures(no_later(keys));
    vstd::seq_lib::to_multiset_len(all);
    vstd::seq_lib::to_multiset_len(order);
    all.lemma_multiset_has_no_duplicates();
    order.lemma_multiset_has_no_duplicates_conv();
    assert forall|q: int| 0 <= q < keys.len() implies 0 <= #[trigger] order[q] < keys.len() by {
        assert(order.contains(order[q]));
        assert(all.contains(order[q]));
    }
    assert forall|i: int| 0 <= i < keys.len() implies #[trigger] order.contains(i) by {
        assert(all[i] == i);
        assert(all.contains(i));
        vstd::seq_lib::to_multiset_contains(all, i);
        vstd::seq_lib::to_multiset_contains(order, i);
    }
}

/// [`stable_order`] is the only way to list every position once in order.
pub proof fn law_order_is_unique(keys: Seq<Seq<char>>, order: Seq<int>)
    requires
        order.no_duplicates(),
        forall|q: int| 0 <= q < order.len() ==> 0 <= #[trigger] order[q] < keys.len(),
        forall|i: int| 0 <= i < keys.len() ==> #[trigger] order.contains(i),
        sorted_by(order, no_later(keys)),
    ensures
        order == stable_order(keys),
{
    let sorted = stable_order(keys);
    lemma_no_later_total(keys);
    lemma_stable_order(keys);
    order.lemma_multiset_has_no_duplicates();
    sorted.lemma_multiset_has_no_duplicates();
    assert forall|x: int| #[trigger]
        order.to_multiset().count(x) == sorted.to_multiset().count(x) by {
        vstd::seq_lib::to_multiset_contains(order, x);
        vstd::seq_lib::to_multiset_contains(sorted, x);
        if 0 <= x < keys.len() {
            assert(order.contains(x) && sorted.contains(x));
            assert(order.to_multiset().contains(x) && sorted.to_multiset().contains(x));
        }
    }
    assert(order.to_multiset() =~= sorted.to_multiset());
    lemma_sorted_unique(order, sorted, no_later(keys));
}

/// The positions of `s` that start a run of equal names.
pub open spec fn run_starts(s: Seq<SessionView>) -> Seq<int>
    decreases s.len(),
{
    if s.len() == 0 {
        seq![]
    } else {
        let head = run_starts(s.drop_last());
        let last = s.len() - 1;
        if last > 0 && s[last].name == s[last - 1].name {
            head
        } else {
            head.push(last)
        }
    }
}

/// [`without_repeats`] keeps exactly the sessions that start a run.
pub proof fn lemma_without_repeats(s: Seq<SessionView>)
    ensures
        without_repeats(s) == reordered(s, run_starts(s)),
        s.len() > 0 ==> without_repeats(s).len() > 0 && without_repeats(s).last().name
            == s.last().name,
        forall|k: int|
            0 <= k < run_starts(s).len() ==> {
                let at = #[trigger] run_starts(s)[k];
                0 <= at < s.len() && (at == 0 || s[at].name != s[at - 1].name)
            },
        forall|a: int, b: int|
            0 <= a < b < run_starts(s).len() ==> run_starts(s)[a] < run_starts(s)[b],
        forall|at: int|
            0 <= at < s.len() && (at == 0 || s[at].name != s[at - 1].name)
                ==> #[trigger] run_starts(s).contains(at),
    decreases s.len(),
{
    if s.len() == 0 {
        assert(reordered(s, run_starts(s)) =~= seq![]);
    } else {
        let t = s.drop_last();
        let last = s.len() - 1;
        lemma_without_repeats(t);
        let head = run_starts(t);
        let starts = run_starts(s);
        assert(reordered(t, head) =~= reordered(s, head));
        if last > 0 {
            assert(t.last() == s[last - 1]);
        }
        assert forall|k: int| 0 <= k < starts.len() implies {
            let at = #[trigger] starts[k];
            0 <= at < s.len() && (at == 0 || s[at].name != s[at - 1].name)
        } by {
            if k < head.len() {
                let at = head[k];
                assert(starts[k] == at);
                assert(t[at] == s[at]);
                if at > 0 {
                    assert(t[at - 1] == s[at - 1]);
                }
            }
        }
        assert forall|at: int|
            0 <= at < s.len() && (at == 0 || s[at].name != s[at - 1].name) implies
            #[trigger] starts.contains(at) by {
            if at < last {
                assert(t[at] == s[at]);
                if at > 0 {
                    assert(t[at - 1] == s[at - 1]);
                }
                assert(head.contains(at));
                let k = choose|k: int| 0 <= k < head.len() && head[k] == at;
                assert(starts[k] == at);
            } else {
                assert(starts[head.len() as int] == at);
            }
        }
        if last > 0 && s[last].name == s[last - 1].name {
        } else {
            assert(reordered(s, head.push(last)) =~= reordered(s, head).push(s[last]));
        }
    }
}

/// The offered sessions for what was found.
pub open spec fn offered(found: Seq<SessionView>) -> Seq<SessionView> {
    arranged(found, name_keys(found))
}

proof fn lemma_offered_positions(found: Seq<SessionView>)
    ensures
        ({
            let order = stable_order(name_keys(found));
            let line = reordered(found, order);
            let starts = run_starts(line);
            &&& line.len() == found.len()
            &&& offered(found).len() == starts.len()
            &&& forall|k: int|
                0 <= k < starts.len() ==> {
                    &&& 0 <= #[trigger] starts[k] < order.len()
                    &&& 0 <= order[starts[k]] < found.len()
                    &&& offered(found)[k] == found[order[starts[k]]]
                }
        }),
{
    let order = stable_order(name_keys(found));
    let line = reordered(found, order);
    lemma_stable_order(name_keys(found));
    lemma_without_repeats(line);
    assert(offered(found) == reordered(line, run_starts(line)));
}

/// Sessions are offered in the order of their names in lower case: none comes
/// before one that stands ahead of it.
pub proof fn law_offered_in_order(found: Seq<SessionView>, a: int, b: int)
    requires
        0 <= a < b < offered(found).len(),
    ensures
        !text_before(lowercase(offered(found)[b].name), lowercase(offered(found)[a].name)),
{
    let keys = name_keys(found);
    let order = stable_order(keys);
    let starts = run_starts(reordered(found, order));
    lemma_stable_order(keys);
    lemma_without_repeats(reordered(found, order));
    lemma_offered_positions(found);
    let x = order[starts[a]];
    let y = order[starts[b]];
    assert(starts[a] < starts[b]);
    assert(no_later(keys)(x, y));
    assert(keys[x] == lowercase(offered(found)[a].name));
    assert(keys[y] == lowercase(offered(found)[b].name));
    lemma_before_irreflexive(keys[x]);
    if text_before(keys[y], keys[x]) && text_before(keys[x], keys[y]) {
        lemma_before_transitive(keys[x], keys[y], keys[x]);
    }
}

/// Every session offered was found.
pub proof fn law_offered_was_found(found: Seq<SessionView>, k: int)
    requires
        0 <= k < offered(found).len(),
    ensures
        found.contains(offered(found)[k]),
{
    lemma_offered_positions(found);
    let order = stable_order(name_keys(found));
    let at = run_starts(reordered(found, order))[k];
    assert(offered(found)[k] == found[order[at]]);
}

/// The first session found under a name is offered, so every name found is
/// offered, and directories scanned earlier win.
pub proof fn law_first_found_is_offered(found: Seq<SessionView>, i: int)
    requires
        0 <= i < found.len(),
        forall|j: int| 0 <= j < i ==> (#[trigger] found[j]).name != found[i].name,
    ensures
        offered(found).contains(found[i]),
{
    let keys = name_keys(found);
    let order = stable_order(keys);
    let line = reordered(found, order);
    let starts = run_starts(line);
    lemma_stable_order(keys);
    lemma_without_repeats(line);
    lemma_offered_positions(found);
    assert(order.contains(i));
    let at = choose|at: int| 0 <= at < order.len() && order[at] == i;
    assert(line[at] == found[i]);
    if at > 0 && line[at].name == line[at - 1].name {
        let j = order[at - 1];
        assert(line[at - 1] == found[j]);
        assert(keys[j] == keys[i]);
        assert(no_later(keys)(order[at - 1], order[at]));
        lemma_before_irreflexive(keys[i]);
        assert(j != i);
        assert(found[j].name != found[i].name);
    }
    assert(starts.contains(at));
    let k = choose|k: int| 0 <= k < starts.len() && starts[k] == at;
    assert(offered(found)[k] == found[i]);
}

/// No two neighbours among the offered sessions have the same name.
pub proof fn law_neighbours_differ(found: Seq<SessionView>, k: int)
    requires
        0 <= k < offered(found).len() - 1,
    ensures
        offered(found)[k].name != offered(found)[k + 1].name,
{
    lemma_neighbours_differ(reordered(found, stable_order(name_keys(found))), k);
}

proof fn lemma_neighbours_differ(s: Seq<SessionView>, k: int)
    requires
        0 <= k < without_repeats(s).len() - 1,
    ensures
        without_repeats(s)[k].name != without_repeats(s)[k + 1].name,
    decreases s.len(),
{
    let head = without_repeats(s.drop_last());
    if k < head.len() - 1 {
        lemma_neighbours_differ(s.drop_last(), k);
    }
}

/// Whether a session was found between two of another name that differs from
/// its own in the case of letters only.
pub open spec fn interleaved(found: Seq<SessionView>, i: int, j: int, k: int) -> bool {
    &&& 0 <= i < j < k < found.len()
    &&& found[i].name == found[k].name
    &&& found[i].name != found[j].name
    &&& lowercase(found[i].name) == lowercase(found[j].name)
}

/// No two offered sessions have the same name, unless names that differ only in
/// the case of letters were found in turns.
pub proof fn law_names_are_distinct(found: Seq<SessionView>, a: int, b: int)
    requires
        forall|i: int, j: int, k: int| !interleaved(found, i, j, k),
        0 <= a < b < offered(found).len(),
    ensures
        offered(found)[a].name != offered(found)[b].name,
{
    let keys = name_keys(found);
    let order = stable_order(keys);
    let line = reordered(found, order);
    let starts = run_starts(line);
    lemma_stable_order(keys);
    lemma_without_repeats(line);
    lemma_offered_positions(found);
    if offered(found)[a].name == offered(found)[b].name {
        let p = starts[a];
        let q = starts[b];
        assert(p < q);
        assert(line[q].name != line[q - 1].name);
        let (i, j, k) = (order[p], order[q - 1], order[q]);
        assert(line[p] == found[i] && line[q - 1] == found[j] && line[q] == found[k]);
        assert(p < q - 1);
        assert(no_later(keys)(order[p], order[q - 1]));
        assert(no_later(keys)(order[q - 1], order[q]));
        assert(keys[i] == keys[k]);
        lemma_before_irreflexive(keys[i]);
        if text_before(keys[i], keys[j]) && text_before(keys[j], keys[k]) {
            lemma_before_transitive(keys[i], keys[j], keys[k]);
        }
        assert(interleaved(found, i, j, k));
    }
}

proof fn lemma_run_start(s: Seq<SessionView>, p: int) -> (at: int)
    requires
        0 <= p < s.len(),
    ensures
        0 <= at <= p,
        at == 0 || s[at].name != s[at - 1].name,
        forall|q: int| at <= q <= p ==> (#[trigger] s[q]).name == s[p].name,
    decreases p,
{
    if p > 0 && s[p].name == s[p - 1].name {
        lemma_run_start(s, p - 1)
    } else {
        p
    }
}

proof fn lemma_position_of(keys: Seq<Seq<char>>, i: int) -> (at: int)
    requires
        0 <= i < keys.len(),
    ensures
        0 <= at < stable_order(keys).len(),
        stable_order(keys)[at] == i,
{
    lemma_stable_order(keys);
    assert(stable_order(keys).contains(i));
    choose|at: int| 0 <= at < stable_order(keys).len() && stable_order(keys)[at] == i
}

proof fn lemma_found_order_kept(keys: Seq<Seq<char>>, i: int, j: int, p: int, q: int)
    requires
        0 <= i < j < keys.len(),
        keys[i] == keys[j],
        0 <= p < keys.len(),
        0 <= q < keys.len(),
        stable_order(keys)[p] == i,
        stable_order(keys)[q] == j,
    ensures
        p < q,
{
    lemma_stable_order(keys);
    if q < p {
        let order = stable_order(keys);
        assert(no_later(keys)(order[q], order[p]));
        lemma_before_irreflexive(keys[i]);
    }
}

/// Where names that differ only in the case of letters were found in turns, a
/// name is offered twice.
pub proof fn law_interleaved_names_repeat(found: Seq<SessionView>, i: int, j: int, k: int)
    requires
        interleaved(found, i, j, k),
    ensures
        exists|a: int, b: int|
            0 <= a < b < offered(found).len() && (#[trigger] offered(found)[a]).name == (
            #[trigger] offered(found)[b]).name,
{
    let keys = name_keys(found);
    let order = stable_order(keys);
    let line = reordered(found, order);
    let starts = run_starts(line);
    lemma_stable_order(keys);
    lemma_without_repeats(line);
    lemma_offered_positions(found);
    let p = lemma_position_of(keys, i);
    let m = lemma_position_of(keys, j);
    let q = lemma_position_of(keys, k);
    lemma_found_order_kept(keys, i, j, p, m);
    lemma_found_order_kept(keys, j, k, m, q);
    assert(line[p] == found[i] && line[m] == found[j] && line[q] == found[k]);
    let x = lemma_run_start(line, p);
    let y = lemma_run_start(line, q);
    assert(line[x].name == line[p].name && line[y].name == line[q].name);
    if y <= m {
        assert(line[m].name == line[q].name);
    }
    assert(starts.contains(x) && starts.contains(y));
    let a = choose|a: int| 0 <= a < starts.len() && starts[a] == x;
    let b = choose|b: int| 0 <= b < starts.len() && starts[b] == y;
    if b <= a {
        assert(b == a || starts[b] < starts[a]);
    }
    assert(offered(found)[a] == found[order[starts[a]]]);
    assert(offered(found)[b] == found[order[starts[b]]]);
    assert(offered(found)[a].name == offered(found)[b].name);
}

/// The directories that hold session files, in the order in which they are
/// scanned, each with the kind of the sessions in it.
pub fn session_dirs() -> (r: Vec<(&'static str, SessionKind)>)
    ensures
        r@.map_values(|d: (&'static str, SessionKind)| (d.0@, d.1)) == seq![
            ("/run/current-system/sw/share/wayland-sessions"@, SessionKind::Wayland),
            ("/run/current-system/sw/share/xsessions"@, SessionKind::X11),
            ("/usr/share/wayland-sessions"@, SessionKind::Wayland),
            ("/usr/share/xsessions"@, SessionKind::X11),
            ("/usr/local/share/wayland-sessions"@, SessionKind::Wayland),
            ("/usr/local/share/xsessions"@, SessionKind::X11),
        ],
{
    let mut r: Vec<(&'static str, SessionKind)> = Vec::new();
    r.push(("/run/current-system/sw/share/wayland-sessions", SessionKind::Wayland));
    r.push(("/run/current-system/sw/share/xsessions", SessionKind::X11));
    r.push(("/usr/share/wayland-sessions", SessionKind::Wayland));
    r.push(("/usr/share/xsessions", SessionKind::X11));
    r.push(("/usr/local/share/wayland-sessions", SessionKind::Wayland));
    r.push(("/usr/local/share/xsessions", SessionKind::X11));
    r
}

/// Whether a file in a session directory is a session file, by its extension.
pub fn is_session_file(extension: Option<&str>) -> (r: bool)
    ensures
        r == (extension matches Some(e) && e@ == "desktop"@),
{
    match extension {
        Some(e) => same_text(chars_of(e).as_slice(), chars_of("desktop").as_slice()),
        None => false,
    }
}

/// What is known of a file in a session directory: the kind of the directory,
/// the extension of the file and, where it could be read, its text.
pub type FileView = (SessionKind, Option<Seq<char>>, Option<Seq<char>>);

/// What a file in a session directory holds.
pub open spec fn file_view(file: (SessionKind, Option<String>, Option<String>)) -> FileView {
    (file.0, view_option(file.1), view_option(file.2))
}

/// What each of several files holds.
pub open spec fn file_views(files: Seq<(SessionKind, Option<String>, Option<String>)>) -> Seq<
    FileView,
> {
    files.map_values(|f: (SessionKind, Option<String>, Option<String>)| file_view(f))
}

/// What each of several candidates holds.
pub open spec fn candidate_views(candidates: Seq<Candidate>) -> Seq<CandidateView> {
    candidates.map_values(|c: Candidate| c@)
}

/// What a file comes to; `None` for one that is no session file or that could
/// not be read.
pub open spec fn candidate_in(file: FileView) -> Option<CandidateView> {
    match file {
        (kind, Some(extension), Some(content)) => if extension == "desktop"@ {
            Some(parsed(content, kind))
        } else {
            None
        },
        _ => None,
    }
}

/// What the session files among `files` come to, in the order of the files.
pub open spec fn candidates_in(files: Seq<FileView>) -> Seq<CandidateView>
    decreases files.len(),
{
    if files.len() == 0 {
        seq![]
    } else {
        let before = candidates_in(files.drop_last());
        match candidate_in(files.last()) {
            Some(candidate) => before.push(candidate),
            None => before,
        }
    }
}

/// Reads the session files among the files found: each with the kind of its
/// directory, its extension and, where it could be read, its text.
pub fn candidates(files: &Vec<(SessionKind, Option<String>, Option<String>)>) -> (r: Vec<
    Candidate,
>)
    ensures
        candidate_views(r@) == candidates_in(file_views(files@)),
        forall|i: int|
            0 <= i < files@.len() && candidate_in(file_view(#[trigger] files@[i])) is Some
                ==> splits_plainly(file_view(files@[i]).2->0),
{
    let mut r: Vec<Candidate> = Vec::new();
    let mut i: usize = 0;
    proof {
        assert(file_views(files@).take(0) =~= seq![]);
        assert(candidate_views(r@) =~= seq![]);
    }
    while i < files.len()
        invariant
            i <= files@.len(),
            candidate_views(r@) == candidates_in(file_views(files@).take(i as int)),
            forall|j: int|
                0 <= j < i && candidate_in(file_view(#[trigger] files@[j])) is Some
                    ==> splits_plainly(file_view(files@[j]).2->0),
        decreases files@.len() - i,
    {
        let file = &files[i];
        let ghost before = r@;
        proof {
            let upto = file_views(files@).take(i + 1);
            assert(upto.drop_last() =~= file_views(files@).take(i as int));
            assert(upto.last() == file_view(files@[i as int]));
        }
        let extension = match &file.1 {
            Some(e) => Some(e.as_str()),
            None => None,
        };
        if is_session_file(extension) {
            if let Some(content) = &file.2 {
                r.push(parse_desktop_file(content.as_str(), file.0));
                assert(candidate_views(r@) =~= candidate_views(before).push(r@.last()@));
            }
        }
        i = i + 1;
    }
    assert(file_views(files@).take(i as int) =~= file_views(files@));
    r
}

/// What is found in one directory after another is what is found in the one,
/// followed by what is found in the other.
pub proof fn law_directories_in_turn(one: Seq<FileView>, other: Seq<FileView>)
    ensures
        candidates_in(one + other) == candidates_in(one) + candidates_in(other),
    decreases other.len(),
{
    if other.len() == 0 {
        assert(one + other =~= one);
        assert(candidates_in(one) + candidates_in(other) =~= candidates_in(one));
    } else {
        law_directories_in_turn(one, other.drop_last());
        assert((one + other).drop_last() =~= one + other.drop_last());
        let before = candidates_in(other.drop_last());
        match candidate_in(other.last()) {
            Some(candidate) => {
                assert((candidates_in(one) + before).push(candidate) =~= candidates_in(one)
                    + before.push(candidate));
            },
            None => {},
        }
    }
}

/// A candidate comes from a session file that could be read.
pub proof fn law_candidate_has_a_file(files: Seq<FileView>, k: int)
    requires
        0 <= k < candidates_in(files).len(),
    ensures
        exists|i: int|
            0 <= i < files.len() && candidate_in(#[trigger] files[i]) == Some(
                candidates_in(files)[k],
            ),
    decreases files.len(),
{
    let head = files.drop_last();
    if k < candidates_in(head).len() {
        law_candidate_has_a_file(head, k);
        let i = choose|i: int|
            0 <= i < head.len() && candidate_in(#[trigger] head[i]) == Some(candidates_in(head)[k]);
        assert(candidate_in(files[i]) == Some(candidates_in(files)[k]));
    } else {
        assert(candidate_in(files[files.len() - 1]) == Some(candidates_in(files)[k]));
    }
}

/// Every file with the extension of session files whose text could be read gives
/// a candidate, whatever the text: the one that the text comes to as a session of
/// the kind of its directory.
pub proof fn law_session_file_is_a_candidate(kind: SessionKind, content: Seq<char>)
    ensures
        candidates_in(seq![(kind, Some("desktop"@), Some(content))]) == seq![parsed(content, kind)],
{
    let files: Seq<FileView> = seq![(kind, Some("desktop"@), Some(content))];
    assert(files.drop_last() =~= seq![]);
    assert(candidates_in(files.drop_last()) =~= seq![]);
}

/// A file with another extension or none, or one that could not be read, gives no
/// candidate, and neither does an empty directory.
pub proof fn law_other_file_is_passed_over(file: FileView)
    requires
        file.1 != Some("desktop"@) || file.2 is None,
    ensures
        candidates_in(seq![file]).len() == 0,
        candidates_in(seq![]).len() == 0,
{
    let files = seq![file];
    let none: Seq<FileView> = seq![];
    assert(files.drop_last() =~= none);
    assert(candidates_in(none).len() == 0);
    assert(candidate_in(files.last()) is None);
}

/// Files and candidates are seen with all that they hold, in order.
pub proof fn law_files_are_seen_whole(
    files: Seq<(SessionKind, Option<String>, Option<String>)>,
    found: Seq<Candidate>,
    i: int,
)
    ensures
        file_views(files).len() == files.len(),
        0 <= i < files.len() ==> ({
            let file = file_views(files)[i];
            &&& file.0 == files[i].0
            &&& match files[i].1 {
                Some(extension) => file.1 == Some(extension@),
                None => file.1 is None,
            }
            &&& match files[i].2 {
                Some(content) => file.2 == Some(content@),
                None => file.2 is None,
            }
        }),
        candidate_views(found).len() == found.len(),
        0 <= i < found.len() ==> candidate_views(found)[i] == found[i]@,
{
}

/// The key of a session is its whole name in lower case.
pub proof fn law_key_is_the_name_in_lower_case(found: Seq<SessionView>, i: int)
    requires
        0 <= i < found.len(),
    ensures
        name_keys(found).len() == found.len(),
        name_keys(found)[i] == lowercase(found[i].name),
{
}

proof fn lemma_earlier_position(keys: Seq<Seq<char>>, a: int, b: int, p: int, q: int)
    requires
        text_before(keys[a], keys[b]) || (keys[a] == keys[b] && a < b),
        0 <= p < keys.len(),
        0 <= q < keys.len(),
        stable_order(keys)[p] == a,
        stable_order(keys)[q] == b,
    ensures
        p < q,
{
    lemma_stable_order(keys);
    lemma_before_irreflexive(keys[a]);
    if q < p {
        let order = stable_order(keys);
        assert(no_later(keys)(order[q], order[p]));
        if text_before(keys[a], keys[b]) && text_before(keys[b], keys[a]) {
            lemma_before_transitive(keys[a], keys[b], keys[a]);
        }
    }
}

/// Where each of the arranged sessions was found. They stand in the order of their
/// keys and, under equal keys, in the order in which they were found. Left out are
/// exactly the sessions that would stand right behind one of the same name.
pub proof fn law_arranged_by_key_and_name(
    found: Seq<SessionView>,
    keys: Seq<Seq<char>>,
) -> (at: Seq<int>)
    requires
        found.len() == keys.len(),
    ensures
        at.len() == arranged(found, keys).len(),
        forall|k: int|
            0 <= k < at.len() ==> 0 <= #[trigger] at[k] < found.len() && arranged(found, keys)[k]
                == found[at[k]],
        forall|a: int, b: int|
            0 <= a < b < at.len() ==> text_before(keys[#[trigger] at[a]], keys[#[trigger] at[b]])
                || (keys[at[a]] == keys[at[b]] && at[a] < at[b]),
        forall|i: int|
            0 <= i < found.len() ==> (!#[trigger] at.contains(i) <==> exists|j: int|
                {
                    &&& 0 <= j < found.len()
                    &&& (#[trigger] found[j]).name == found[i].name
                    &&& text_before(keys[j], keys[i]) || (keys[j] == keys[i] && j < i)
                    &&& forall|m: int|
                        0 <= m < found.len() && (text_before(keys[j], #[trigger] keys[m]) || (
                        keys[j] == keys[m] && j < m)) ==> !(text_before(keys[m], keys[i]) || (
                        keys[m] == keys[i] && m < i))
                }),
{
    let order = stable_order(keys);
    let line = reordered(found, order);
    let starts = run_starts(line);
    lemma_stable_order(keys);
    lemma_without_repeats(line);
    let at = starts.map_values(|p: int| order[p]);
    assert forall|k: int| 0 <= k < at.len() implies 0 <= #[trigger] at[k] < found.len() && arranged(
        found,
        keys,
    )[k] == found[at[k]] by {
        assert(at[k] == order[starts[k]]);
    }
    assert forall|a: int, b: int| 0 <= a < b < at.len() implies text_before(
        keys[#[trigger] at[a]],
        keys[#[trigger] at[b]],
    ) || (keys[at[a]] == keys[at[b]] && at[a] < at[b]) by {
        assert(at[a] == order[starts[a]] && at[b] == order[starts[b]]);
        assert(starts[a] < starts[b]);
        assert(no_later(keys)(order[starts[a]], order[starts[b]]));
    }
    assert forall|i: int| 0 <= i < found.len() implies (!#[trigger] at.contains(i)
        <==> exists|j: int|
        {
            &&& 0 <= j < found.len()
            &&& (#[trigger] found[j]).name == found[i].name
            &&& text_before(keys[j], keys[i]) || (keys[j] == keys[i] && j < i)
            &&& forall|m: int|
                0 <= m < found.len() && (text_before(keys[j], #[trigger] keys[m]) || (keys[j]
                    == keys[m] && j < m)) ==> !(text_before(keys[m], keys[i]) || (keys[m]
                    == keys[i] && m < i))
        }) by {
        let p = lemma_position_of(keys, i);
        assert(line[p] == found[i]);
        if at.contains(i) {
            let k = choose|k: int| 0 <= k < at.len() && at[k] == i;
            assert(order[starts[k]] == i);
            assert(starts[k] == p);
            assert forall|j: int|
                0 <= j < found.len() && (#[trigger] found[j]).name == found[i].name && (text_before(
                    keys[j],
                    keys[i],
                ) || (keys[j] == keys[i] && j < i)) implies exists|m: int|
                0 <= m < found.len() && (text_before(keys[j], #[trigger] keys[m]) || (keys[j]
                    == keys[m] && j < m)) && (text_before(keys[m], keys[i]) || (keys[m] == keys[i]
                    && m < i)) by {
                let q = lemma_position_of(keys, j);
                lemma_earlier_position(keys, j, i, q, p);
                assert(line[q] == found[j]);
                let m = order[p - 1];
                assert(line[p - 1] == found[m]);
                assert(q != p - 1);
                assert(no_later(keys)(order[q], order[p - 1]));
                assert(no_later(keys)(order[p - 1], order[p]));
                assert(m != j && m != i);
                assert(keys[m] == keys[m]);
            }
        } else {
            if p == 0 || line[p].name != line[p - 1].name {
                assert(starts.contains(p));
                let k = choose|k: int| 0 <= k < starts.len() && starts[k] == p;
                assert(at[k] == i);
            }
            let j = order[p - 1];
            assert(line[p - 1] == found[j]);
            assert(no_later(keys)(order[p - 1], order[p]));
            assert(j != i);
            assert forall|m: int|
                0 <= m < found.len() && (text_before(keys[j], #[trigger] keys[m]) || (keys[j]
                    == keys[m] && j < m)) implies !(text_before(keys[m], keys[i]) || (keys[m]
                == keys[i] && m < i)) by {
                let r = lemma_position_of(keys, m);
                lemma_earlier_position(keys, j, m, p - 1, r);
                if text_before(keys[m], keys[i]) || (keys[m] == keys[i] && m < i) {
                    lemma_earlier_position(keys, m, i, r, p);
                }
            }
            assert(found[j].name == found[i].name);
        }
    }
    at
}

} // verus!
