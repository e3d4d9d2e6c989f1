//! The lexicographic order of texts by code point, which is also the order of
//! their UTF-8 bytes.

use vstd::prelude::*;

verus! {

/// Whether `a` comes strictly before `b`: at the first place where they differ
/// `a` has the smaller code point, or `a` ends there.
pub open spec fn text_before(a: Seq<char>, b: Seq<char>) -> bool
    decreases a.len(),
{
    if b.len() == 0 {
        false
    } else if a.len() == 0 {
        true
    } else if a[0] != b[0] {
        a[0] < b[0]
    } else {
        text_before(a.skip(1), b.skip(1))
    }
}

/// Nothing comes before itself.
pub proof fn lemma_before_irreflexive(a: Seq<char>)
    ensures
        !text_before(a, a),
    decreases a.len(),
{
    if a.len() > 0 {
        lemma_before_irreflexive(a.skip(1));
    }
}

/// The order is transitive.
pub proof fn lemma_before_transitive(a: Seq<char>, b: Seq<char>, c: Seq<char>)
    requires
        text_before(a, b),
        text_before(b, c),
    ensures
        text_before(a, c),
    decreases a.len(),
{
    if a.len() > 0 && a[0] == b[0] && b[0] == c[0] {
        lemma_before_transitive(a.skip(1), b.skip(1), c.skip(1));
    }
}

/// Of two different texts one comes before the other.
pub proof fn lemma_before_total(a: Seq<char>, b: Seq<char>)
    ensures
        a == b || text_before(a, b) || text_before(b, a),
    decreases a.len(),
{
    if a.len() > 0 && b.len() > 0 && a[0] == b[0] {
        lemma_before_total(a.skip(1), b.skip(1));
        if a.skip(1) == b.skip(1) {
            assert(a.skip(1).len() == b.skip(1).len());
            assert forall|i: int| 0 <= i < a.len() implies a[i] == b[i] by {
                if i > 0 {
                    assert(a[i] == a.skip(1)[i - 1]);
                    assert(b[i] == b.skip(1)[i - 1]);
                }
            }
            assert(a =~= b);
        }
    } else if a.len() == 0 && b.len() == 0 {
        assert(a =~= b);
    }
}

/// Whether `a` comes strictly before `b`.
pub fn comes_before(a: &[char], b: &[char]) -> (r: bool)
    ensures
        r == text_before(a@, b@),
{
    let mut i: usize = 0;
    proof {
        assert(a@.skip(0) =~= a@);
        assert(b@.skip(0) =~= b@);
    }
    while i < a.len() && i < b.len()
        invariant
            i <= a@.len(),
            i <= b@.len(),
            text_before(a@, b@) == text_before(a@.skip(i as int), b@.skip(i as int)),
        decreases a@.len() - i,
    {
        if a[i] != b[i] {
            return a[i] < b[i];
        }
        proof {
            assert(a@.skip(i as int).skip(1) =~= a@.skip(i + 1));
            assert(b@.skip(i as int).skip(1) =~= b@.skip(i + 1));
        }
        i = i + 1;
    }
    i < b.len()
}

/// Two texts are ordered by the first character in which they differ.
pub proof fn law_first_difference_decides(
    common: Seq<char>,
    x: char,
    a: Seq<char>,
    y: char,
    b: Seq<char>,
)
    requires
        x < y,
    ensures
        text_before(common.push(x) + a, common.push(y) + b),
        !text_before(common.push(y) + b, common.push(x) + a),
    decreases common.len(),
{
    let s = common.push(x) + a;
    let t = common.push(y) + b;
    if common.len() > 0 {
        assert(s.skip(1) =~= common.skip(1).push(x) + a);
        assert(t.skip(1) =~= common.skip(1).push(y) + b);
        assert(s[0] == common[0] && t[0] == common[0]);
        law_first_difference_decides(common.skip(1), x, a, y, b);
    } else {
        assert(s[0] == x && t[0] == y);
    }
}

/// A text comes before every longer one that starts with it.
pub proof fn law_shorter_comes_first(s: Seq<char>, more: Seq<char>)
    requires
        more.len() > 0,
    ensures
        text_before(s, s + more),
        !text_before(s + more, s),
    decreases s.len(),
{
    if s.len() > 0 {
        assert((s + more).skip(1) =~= s.skip(1) + more);
        law_shorter_comes_first(s.skip(1), more);
    }
}

} // verus!
