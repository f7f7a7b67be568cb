//! Levenshtein edit distance.

use vstd::prelude::*;

use crate::text::chars_of;

verus! {

/// The edit distance of two texts: the textbook recurrence on their last characters.
///
/// That this is the least number of single-character edits is proved by
/// [`law_distance_is_fewest_edits`].
pub open spec fn edit_distance(a: Seq<char>, b: Seq<char>) -> nat
    decreases a.len() + b.len(),
{
    if a.len() == 0 {
        b.len()
    } else if b.len() == 0 {
        a.len()
    } else {
        let deletion = edit_distance(a.drop_last(), b) + 1;
        let insertion = edit_distance(a, b.drop_last()) + 1;
        let substitution = edit_distance(a.drop_last(), b.drop_last()) + (if a.last() == b.last() {
            0nat
        } else {
            1nat
        });
        least(least(deletion, insertion), substitution)
    }
}

/// The smaller of two numbers.
pub open spec fn least(x: nat, y: nat) -> nat {
    if x <= y {
        x
    } else {
        y
    }
}

/// The distance lies between the difference of the lengths and the longer length.
pub proof fn law_distance_bounds(a: Seq<char>, b: Seq<char>)
    ensures
        edit_distance(a, b) <= a.len() || edit_distance(a, b) <= b.len(),
        a.len() <= b.len() + edit_distance(a, b),
        b.len() <= a.len() + edit_distance(a, b),
    decreases a.len() + b.len(),
{
    if a.len() > 0 && b.len() > 0 {
        law_distance_bounds(a.drop_last(), b);
        law_distance_bounds(a, b.drop_last());
        law_distance_bounds(a.drop_last(), b.drop_last());
    }
}

/// The distance does not depend on the order of its arguments.
pub proof fn law_distance_symmetric(a: Seq<char>, b: Seq<char>)
    ensures
        edit_distance(a, b) == edit_distance(b, a),
    decreases a.len() + b.len(),
{
    if a.len() > 0 && b.len() > 0 {
        law_distance_symmetric(a.drop_last(), b);
        law_distance_symmetric(a, b.drop_last());
        law_distance_symmetric(a.drop_last(), b.drop_last());
    }
}

/// The distance is zero exactly for equal texts.
pub proof fn law_distance_zero_iff_equal(a: Seq<char>, b: Seq<char>)
    ensures
        edit_distance(a, b) == 0 <==> a == b,
    decreases a.len() + b.len(),
{
    if a.len() == 0 || b.len() == 0 {
        if edit_distance(a, b) == 0 {
            assert(a =~= b);
        }
    } else {
        law_distance_zero_iff_equal(a.drop_last(), b.drop_last());
        if edit_distance(a, b) == 0 {
            assert(a =~= a.drop_last().push(a.last()));
            assert(b =~= b.drop_last().push(b.last()));
        }
    }
}

/// Dropping the last character of either text changes the distance by at most one.
proof fn lemma_drop_last_step(a: Seq<char>, b: Seq<char>)
    requires
        b.len() > 0,
    ensures
        edit_distance(a, b.drop_last()) <= edit_distance(a, b) + 1,
        edit_distance(a, b) <= edit_distance(a, b.drop_last()) + 1,
    decreases a.len() + b.len(),
{
    let bb = b.drop_last();
    if a.len() == 0 {
    } else {
        let aa = a.drop_last();
        if bb.len() == 0 {
            law_distance_bounds(a, b);
        } else {
            lemma_drop_last_step(aa, b);
        }
        assert(edit_distance(a, bb) <= edit_distance(aa, bb) + 1);
    }
}

/// Equal last characters cancel.
proof fn lemma_equal_last_cancels(a: Seq<char>, b: Seq<char>)
    requires
        a.len() > 0,
        b.len() > 0,
        a.last() == b.last(),
    ensures
        edit_distance(a, b) == edit_distance(a.drop_last(), b.drop_last()),
{
    lemma_drop_last_step(a.drop_last(), b);
    law_distance_symmetric(a, b.drop_last());
    law_distance_symmetric(a.drop_last(), b.drop_last());
    lemma_drop_last_step(b.drop_last(), a);
}

/// Levenshtein edit distance between two strings, counted in characters.
///
/// One row of the distance table is kept; its column zero is the row number and is not stored.
pub fn levenshtein(a: &str, b: &str) -> (d: usize)
    ensures
        d == edit_distance(a@, b@),
{
    let a_chars = chars_of(a);
    let b_chars = chars_of(b);
    let m: usize = a_chars.len();
    let n: usize = b_chars.len();
    if m == 0 {
        return n;
    }
    if n == 0 {
        return m;
    }
    let mut prev: Vec<usize> = Vec::new();
    let mut k: usize = 0;
    while k < n
        invariant
            k <= n,
            n == b@.len(),
            prev@.len() == k,
            forall|j: int| 0 <= j < k ==> #[trigger] prev@[j] == j + 1,
        decreases n - k,
    {
        prev.push(k + 1);
        k += 1;
    }
    proof {
        assert forall|j: int| 0 <= j < n implies #[trigger] prev@[j] == edit_distance(
            a@.take(0),
            b@.take(j + 1),
        ) by {}
    }
    let mut i: usize = 0;
    while i < m
        invariant
            i <= m,
            m == a@.len(),
            n == b@.len(),
            n > 0,
            a_chars@ == a@,
            b_chars@ == b@,
            prev@.len() == n,
            forall|j: int|
                0 <= j < n ==> #[trigger] prev@[j] == edit_distance(
                    a@.take(i as int),
                    b@.take(j + 1),
                ),
        decreases m - i,
    {
        let mut curr: Vec<usize> = Vec::new();
        let mut diagonal: usize = i;
        let mut left: usize = i + 1;
        let mut j: usize = 0;
        let ghost row = a@.take(i + 1);
        proof {
            assert(row.drop_last() == a@.take(i as int));
            assert(row.last() == a@[i as int]);
        }
        while j < n
            invariant
                i < m,
                j <= n,
                m == a@.len(),
                n == b@.len(),
                a_chars@ == a@,
                b_chars@ == b@,
                prev@.len() == n,
                curr@.len() == j,
                row.len() == i + 1,
                row.drop_last() == a@.take(i as int),
                row.last() == a@[i as int],
                diagonal == edit_distance(a@.take(i as int), b@.take(j as int)),
                left == edit_distance(row, b@.take(j as int)),
                forall|c: int|
                    0 <= c < n ==> #[trigger] prev@[c] == edit_distance(
                        a@.take(i as int),
                        b@.take(c + 1),
                    ),
                forall|c: int|
                    0 <= c < j ==> #[trigger] curr@[c] == edit_distance(row, b@.take(c + 1)),
            decreases n - j,
        {
            let ghost col = b@.take(j + 1);
            proof {
                assert(col.drop_last() == b@.take(j as int));
                assert(col.last() == b@[j as int]);
                law_distance_bounds(row, col);
                assert(prev@[j as int] == edit_distance(a@.take(i as int), col));
            }
            let up: usize = prev[j];
            let cell: usize = if a_chars[i] == b_chars[j] {
                proof {
                    lemma_equal_last_cancels(row, col);
                }
                diagonal
            } else {
                let mut best: usize = up;
                if left < best {
                    best = left;
                }
                if diagonal < best {
                    best = diagonal;
                }
                best + 1
            };
            curr.push(cell);
            diagonal = up;
            left = cell;
            j += 1;
        }
        prev = curr;
        i += 1;
    }
    proof {
        assert(a@.take(m as int) == a@);
        assert(b@.take(n as int) == b@);
        assert(prev@[n - 1] == edit_distance(a@.take(m as int), b@.take(n as int)));
    }
    prev[n - 1]
}

/// The triangle inequality.
pub proof fn law_distance_triangle(a: Seq<char>, b: Seq<char>, c: Seq<char>)
    ensures
        edit_distance(a, c) <= edit_distance(a, b) + edit_distance(b, c),
    decreases a.len() + b.len() + c.len(),
{
    law_distance_bounds(a, b);
    law_distance_bounds(b, c);
    law_distance_bounds(a, c);
    if a.len() > 0 && b.len() > 0 && c.len() > 0 {
        let aa = a.drop_last();
        let bb = b.drop_last();
        let cc = c.drop_last();
        law_distance_triangle(aa, b, c);
        law_distance_triangle(a, b, cc);
        law_distance_triangle(a, bb, c);
        law_distance_triangle(a, bb, cc);
        law_distance_triangle(aa, bb, c);
        law_distance_triangle(aa, bb, cc);
    }
}

/// One single-character edit of a text.
pub enum Edit {
    /// Put a character in front of the one at this position (or at the end).
    Insert(int, char),
    /// Take out the character at this position.
    Delete(int),
    /// Put another character in the place of the one at this position.
    Replace(int, char),
}

/// Whether an edit names a position of the text.
pub open spec fn edit_applies(e: Edit, s: Seq<char>) -> bool {
    match e {
        Edit::Insert(at, _) => 0 <= at <= s.len(),
        Edit::Delete(at) => 0 <= at < s.len(),
        Edit::Replace(at, _) => 0 <= at < s.len(),
    }
}

/// The text after one edit.
pub open spec fn edited(e: Edit, s: Seq<char>) -> Seq<char> {
    match e {
        Edit::Insert(at, c) => s.insert(at, c),
        Edit::Delete(at) => s.remove(at),
        Edit::Replace(at, c) => s.update(at, c),
    }
}

/// Whether the edits, made one after the other, turn the first text into the second.
pub open spec fn edits_lead(a: Seq<char>, edits: Seq<Edit>, b: Seq<char>) -> bool
    decreases edits.len(),
{
    if edits.len() == 0 {
        a == b
    } else {
        edit_applies(edits[0], a) && edits_lead(edited(edits[0], a), edits.drop_first(), b)
    }
}

proof fn lemma_common_suffix(a: Seq<char>, b: Seq<char>, suffix: Seq<char>)
    ensures
        edit_distance(a + suffix, b + suffix) <= edit_distance(a, b),
    decreases suffix.len(),
{
    if suffix.len() == 0 {
        assert(a + suffix =~= a);
        assert(b + suffix =~= b);
    } else {
        let shorter = suffix.drop_last();
        lemma_common_suffix(a, b, shorter);
        assert((a + suffix).drop_last() =~= a + shorter);
        assert((b + suffix).drop_last() =~= b + shorter);
        assert((a + suffix).last() == (b + suffix).last());
    }
}

proof fn lemma_one_edit_is_near(e: Edit, s: Seq<char>)
    requires
        edit_applies(e, s),
    ensures
        edit_distance(s, edited(e, s)) <= 1,
{
    match e {
        Edit::Insert(at, c) => {
            let p = s.take(at);
            let q = s.skip(at);
            law_distance_zero_iff_equal(p, p);
            assert(p.push(c).drop_last() =~= p);
            lemma_drop_last_step(p, p.push(c));
            lemma_common_suffix(p, p.push(c), q);
            assert(p + q =~= s);
            assert(p.push(c) + q =~= s.insert(at, c));
        },
        Edit::Delete(at) => {
            let p = s.take(at);
            let q = s.skip(at + 1);
            let long = p.push(s[at]);
            law_distance_zero_iff_equal(p, p);
            assert(long.drop_last() =~= p);
            lemma_drop_last_step(p, long);
            law_distance_symmetric(p, long);
            lemma_common_suffix(long, p, q);
            assert(long + q =~= s);
            assert(p + q =~= s.remove(at));
        },
        Edit::Replace(at, c) => {
            let p = s.take(at);
            let q = s.skip(at + 1);
            law_distance_zero_iff_equal(p, p);
            assert(p.push(s[at]).drop_last() =~= p);
            assert(p.push(c).drop_last() =~= p);
            lemma_common_suffix(p.push(s[at]), p.push(c), q);
            assert(p.push(s[at]) + q =~= s);
            assert(p.push(c) + q =~= s.update(at, c));
        },
    }
}

proof fn lemma_edits_are_no_fewer(a: Seq<char>, edits: Seq<Edit>, b: Seq<char>)
    requires
        edits_lead(a, edits, b),
    ensures
        edit_distance(a, b) <= edits.len(),
    decreases edits.len(),
{
    if edits.len() == 0 {
        law_distance_zero_iff_equal(a, b);
    } else {
        let next = edited(edits[0], a);
        lemma_one_edit_is_near(edits[0], a);
        lemma_edits_are_no_fewer(next, edits.drop_first(), b);
        law_distance_triangle(a, next, b);
    }
}

/// Edits of a text leave what is appended to it alone.
proof fn lemma_edits_under_suffix(a: Seq<char>, edits: Seq<Edit>, b: Seq<char>, c: char)
    requires
        edits_lead(a, edits, b),
    ensures
        edits_lead(a.push(c), edits, b.push(c)),
    decreases edits.len(),
{
    if edits.len() > 0 {
        lemma_edits_under_suffix(edited(edits[0], a), edits.drop_first(), b, c);
        assert(edited(edits[0], a.push(c)) =~= edited(edits[0], a).push(c));
    }
}

/// Whether some edits of this number lead from one text to the other.
spec fn edits_of_number(a: Seq<char>, b: Seq<char>, n: nat) -> bool {
    exists|edits: Seq<Edit>| #[trigger] edits_lead(a, edits, b) && edits.len() == n
}

/// One more edit at the end.
proof fn lemma_edits_then_one(a: Seq<char>, edits: Seq<Edit>, b: Seq<char>, e: Edit)
    requires
        edits_lead(a, edits, b),
        edit_applies(e, b),
    ensures
        edits_lead(a, edits.push(e), edited(e, b)),
        edits_of_number(a, edited(e, b), edits.len() + 1),
    decreases edits.len(),
{
    if edits.len() == 0 {
        assert(edits.push(e)[0] == e);
        assert(edits_lead(edited(e, a), edits.push(e).drop_first(), edited(e, b)));
    } else {
        assert(edits.push(e)[0] == edits[0]);
        lemma_edits_then_one(edited(edits[0], a), edits.drop_first(), b, e);
        assert(edits.push(e).drop_first() =~= edits.drop_first().push(e));
    }
    let more = edits.push(e);
    assert(edits_lead(a, more, edited(e, b)));
    assert(more.len() == edits.len() + 1);
}

/// Edits that lead from one text to the other, as many as the distance says.
proof fn lemma_shortest_edits(a: Seq<char>, b: Seq<char>)
    ensures
        edits_of_number(a, b, edit_distance(a, b)),
    decreases a.len() + b.len(),
{
    if a.len() == 0 && b.len() == 0 {
        assert(a =~= b);
        assert(edits_lead(a, Seq::<Edit>::empty(), b));
    } else if b.len() > 0 && (a.len() == 0 || edit_distance(a, b) == edit_distance(
        a,
        b.drop_last(),
    ) + 1) {
        let bb = b.drop_last();
        lemma_shortest_edits(a, bb);
        let fewer = choose|edits: Seq<Edit>| #[trigger]
            edits_lead(a, edits, bb) && edits.len() == edit_distance(a, bb);
        let e = Edit::Insert(bb.len() as int, b.last());
        lemma_edits_then_one(a, fewer, bb, e);
        assert(edited(e, bb) =~= b);
    } else if b.len() == 0 || edit_distance(a, b) == edit_distance(a.drop_last(), b) + 1 {
        let aa = a.drop_last();
        lemma_shortest_edits(aa, b);
        let fewer = choose|edits: Seq<Edit>| #[trigger]
            edits_lead(aa, edits, b) && edits.len() == edit_distance(aa, b);
        let e = Edit::Delete(aa.len() as int);
        let edits = seq![e] + fewer;
        assert(edited(e, a) =~= aa);
        assert(edits[0] == e);
        assert(edits.drop_first() =~= fewer);
        assert(edits_lead(a, edits, b));
    } else {
        let aa = a.drop_last();
        let bb = b.drop_last();
        lemma_shortest_edits(aa, bb);
        let fewer = choose|edits: Seq<Edit>| #[trigger]
            edits_lead(aa, edits, bb) && edits.len() == edit_distance(aa, bb);
        lemma_edits_under_suffix(aa, fewer, bb, a.last());
        assert(aa.push(a.last()) =~= a);
        if a.last() == b.last() {
            assert(bb.push(a.last()) =~= b);
        } else {
            let e = Edit::Replace(bb.len() as int, b.last());
            lemma_edits_then_one(a, fewer, bb.push(a.last()), e);
            assert(edited(e, bb.push(a.last())) =~= b);
        }
    }
}

/// The distance is the least number of single-character insertions, deletions and
/// replacements that turn the first text into the second: some edits are as few, and no
/// edits are fewer.
pub proof fn law_distance_is_fewest_edits(a: Seq<char>, b: Seq<char>)
    ensures
        exists|edits: Seq<Edit>| #[trigger]
            edits_lead(a, edits, b) && edits.len() == edit_distance(a, b),
        forall|edits: Seq<Edit>| #[trigger]
            edits_lead(a, edits, b) ==> edits.len() >= edit_distance(a, b),
{
    lemma_shortest_edits(a, b);
    assert forall|edits: Seq<Edit>| #[trigger] edits_lead(a, edits, b) implies edits.len()
        >= edit_distance(a, b) by {
        lemma_edits_are_no_fewer(a, edits, b);
    }
}

} // verus!
