//! Cutting a text into its maximal runs of one class of characters.

use vstd::prelude::*;

use crate::classes::CharClass;
use crate::text::{chars_of, lemma_texts_push, texts};

verus! {

/// The maximal runs of characters that satisfy `p`, in the order in which they stand.
///
/// A character outside the class ends a run; one inside extends the run that the character
/// before it belongs to, or starts a new one. That these are the maximal segments is proved by
/// [`law_runs_are_the_maximal_segments`].
pub open spec fn runs(s: Seq<char>, p: spec_fn(char) -> bool) -> Seq<Seq<char>>
    decreases s.len(),
{
    if s.len() == 0 {
        Seq::empty()
    } else {
        let before = runs(s.drop_last(), p);
        let c = s.last();
        if !p(c) {
            before
        } else if s.len() >= 2 && p(s[s.len() - 2]) {
            before.drop_last().push(before.last().push(c))
        } else {
            before.push(seq![c])
        }
    }
}

/// A segment of the text all of whose characters satisfy `p` and that neither neighbour extends.
pub open spec fn maximal_segment(
    s: Seq<char>,
    p: spec_fn(char) -> bool,
    start: int,
    end: int,
) -> bool {
    &&& 0 <= start < end <= s.len()
    &&& forall|i: int| start <= i < end ==> p(#[trigger] s[i])
    &&& start == 0 || !p(s[start - 1])
    &&& end == s.len() || !p(s[end])
}

/// The segments are maximal, stand in order, and leave out no character that satisfies `p`.
pub open spec fn are_the_maximal_segments(
    s: Seq<char>,
    p: spec_fn(char) -> bool,
    spans: Seq<(int, int)>,
) -> bool {
    &&& forall|k: int|
        0 <= k < spans.len() ==> maximal_segment(
            s,
            p,
            (#[trigger] spans[k]).0,
            spans[k].1,
        )
    &&& forall|k: int, l: int|
        0 <= k < l < spans.len() ==> (#[trigger] spans[k]).1 < (#[trigger] spans[l]).0
    &&& forall|i: int|
        0 <= i < s.len() && p(#[trigger] s[i]) ==> exists|k: int|
            0 <= k < spans.len() && (#[trigger] spans[k]).0 <= i < spans[k].1
}

spec fn spans_of(s: Seq<char>, p: spec_fn(char) -> bool) -> Seq<(int, int)>
    decreases s.len(),
{
    if s.len() == 0 {
        Seq::empty()
    } else {
        let before = spans_of(s.drop_last(), p);
        let n = s.len() as int;
        if !p(s.last()) {
            before
        } else if s.len() >= 2 && p(s[n - 2]) {
            before.drop_last().push((before.last().0, n))
        } else {
            before.push((n - 1, n))
        }
    }
}

/// A maximal segment that ends before the last character, or at one outside the class, stays
/// maximal when that character is put back.
proof fn lemma_segment_stays_maximal(
    s: Seq<char>,
    p: spec_fn(char) -> bool,
    start: int,
    end: int,
)
    requires
        s.len() > 0,
        maximal_segment(s.drop_last(), p, start, end),
        end < s.len() - 1 || !p(s.last()),
    ensures
        maximal_segment(s, p, start, end),
{
    let t = s.drop_last();
    assert forall|i: int| start <= i < end implies p(#[trigger] s[i]) by {
        assert(p(t[i]));
    }
    if start > 0 {
        assert(s[start - 1] == t[start - 1]);
    }
    if end < t.len() {
        assert(s[end] == t[end]);
    }
}

proof fn lemma_spans(s: Seq<char>, p: spec_fn(char) -> bool)
    ensures
        are_the_maximal_segments(s, p, spans_of(s, p)),
        spans_of(s, p).len() == runs(s, p).len(),
        forall|k: int|
            0 <= k < spans_of(s, p).len() ==> #[trigger] runs(s, p)[k] == s.subrange(
                spans_of(s, p)[k].0,
                spans_of(s, p)[k].1,
            ),
        s.len() > 0 && p(s.last()) ==> spans_of(s, p).len() > 0 && spans_of(s, p).last().1
            == s.len(),
        s.len() > 0 && !p(s.last()) && spans_of(s, p).len() > 0 ==> spans_of(s, p).last().1
            < s.len(),
    decreases s.len(),
{
    if s.len() > 0 {
        let t = s.drop_last();
        lemma_spans(t, p);
        let n = s.len() as int;
        let before = spans_of(t, p);
        let after = spans_of(s, p);
        assert(forall|i: int| 0 <= i < t.len() ==> #[trigger] t[i] == s[i]);
        if s.len() >= 2 {
            assert(t.last() == s[n - 2]);
        }
        assert forall|k: int| 0 <= k < before.len() implies (#[trigger] before[k]).1 <= t.len() by {
            assert(maximal_segment(t, p, before[k].0, before[k].1));
        }
        if !p(s.last()) {
            assert forall|k: int| 0 <= k < after.len() implies maximal_segment(
                s,
                p,
                (#[trigger] after[k]).0,
                after[k].1,
            ) by {
                lemma_segment_stays_maximal(s, p, before[k].0, before[k].1);
            }
            assert forall|k: int| 0 <= k < after.len() implies #[trigger] runs(s, p)[k]
                == s.subrange(after[k].0, after[k].1) by {
                assert(maximal_segment(t, p, before[k].0, before[k].1));
                assert(runs(t, p)[k] == t.subrange(before[k].0, before[k].1));
                assert(t.subrange(before[k].0, before[k].1) =~= s.subrange(
                    before[k].0,
                    before[k].1,
                ));
            }
            assert forall|i: int| 0 <= i < s.len() && p(#[trigger] s[i]) implies exists|k: int|
                0 <= k < after.len() && (#[trigger] after[k]).0 <= i < after[k].1 by {
                assert(p(t[i]));
            }
        } else {
            let extends = s.len() >= 2 && p(s[n - 2]);
            let last = after.len() - 1;
            let kept = if extends {
                before.drop_last()
            } else {
                before
            };
            if extends {
                assert(maximal_segment(t, p, before.last().0, before.last().1));
            }
            assert(forall|k: int| 0 <= k < last ==> #[trigger] after[k] == before[k]);
            assert forall|k: int| 0 <= k < last implies (#[trigger] after[k]).1 < t.len() by {
                assert(maximal_segment(t, p, before[k].0, before[k].1));
                if extends {
                    assert(before[k].1 < before[last].0);
                } else if before[k].1 == t.len() {
                    assert(p(t[t.len() - 1]));
                }
            }
            assert forall|k: int| 0 <= k < after.len() implies maximal_segment(
                s,
                p,
                (#[trigger] after[k]).0,
                after[k].1,
            ) by {
                if k < last {
                    lemma_segment_stays_maximal(s, p, before[k].0, before[k].1);
                } else {
                    if after[k].0 > 0 {
                        assert(s[after[k].0 - 1] == t[after[k].0 - 1]);
                    }
                    assert forall|i: int| after[k].0 <= i < after[k].1 implies p(
                        #[trigger] s[i],
                    ) by {
                        if i < n - 1 {
                            assert(p(t[i]));
                        }
                    }
                }
            }
            assert forall|k: int, l: int| 0 <= k < l < after.len() implies (#[trigger] after[k]).1
                < (#[trigger] after[l]).0 by {
                assert(after[k] == before[k]);
                if l < last {
                    assert(before[k].1 < before[l].0);
                } else if extends {
                    assert(before[k].1 < before[l].0);
                }
            }
            assert forall|k: int| 0 <= k < after.len() implies #[trigger] runs(s, p)[k]
                == s.subrange(after[k].0, after[k].1) by {
                if k < last {
                    assert(maximal_segment(t, p, before[k].0, before[k].1));
                    assert(runs(t, p)[k] == t.subrange(before[k].0, before[k].1));
                    assert(t.subrange(before[k].0, before[k].1) =~= s.subrange(
                        before[k].0,
                        before[k].1,
                    ));
                } else if extends {
                    assert(runs(t, p)[k] == t.subrange(before[k].0, before[k].1));
                    assert(t.subrange(before[k].0, before[k].1).push(s.last()) =~= s.subrange(
                        before[k].0,
                        n,
                    ));
                } else {
                    assert(seq![s.last()] =~= s.subrange(n - 1, n));
                }
            }
            assert forall|i: int| 0 <= i < s.len() && p(#[trigger] s[i]) implies exists|k: int|
                0 <= k < after.len() && (#[trigger] after[k]).0 <= i < after[k].1 by {
                if i == n - 1 {
                    assert(after[last].0 <= i < after[last].1);
                } else {
                    assert(p(t[i]));
                    let k = choose|k: int|
                        0 <= k < before.len() && (#[trigger] before[k]).0 <= i < before[k].1;
                    assert(after[k].0 <= i < after[k].1);
                }
            }
        }
    }
}

/// The runs are exactly the maximal segments of the class, in order: none is glued to another
/// across what separates them, and no character of the class is lost.
pub proof fn law_runs_are_the_maximal_segments(s: Seq<char>, p: spec_fn(char) -> bool)
    ensures
        exists|spans: Seq<(int, int)>| #[trigger]
            are_the_maximal_segments(s, p, spans) && spans.len() == runs(s, p).len() && forall|
                k: int,
            |
                0 <= k < spans.len() ==> #[trigger] runs(s, p)[k] == s.subrange(
                    spans[k].0,
                    spans[k].1,
                ),
{
    lemma_spans(s, p);
    let spans = spans_of(s, p);
    assert(are_the_maximal_segments(s, p, spans));
}

/// Every run holds at least one character, and only characters of the class.
pub proof fn law_runs_hold_the_class(s: Seq<char>, p: spec_fn(char) -> bool)
    ensures
        forall|k: int| 0 <= k < runs(s, p).len() ==> (#[trigger] runs(s, p)[k]).len() > 0,
        forall|k: int, i: int|
            0 <= k < runs(s, p).len() && 0 <= i < runs(s, p)[k].len() ==> p(
                #[trigger] runs(s, p)[k][i],
            ),
{
    lemma_spans(s, p);
    let spans = spans_of(s, p);
    assert forall|k: int| 0 <= k < runs(s, p).len() implies (#[trigger] runs(s, p)[k]).len() > 0 by {
        assert(maximal_segment(s, p, spans[k].0, spans[k].1));
    }
    assert forall|k: int, i: int|
        0 <= k < runs(s, p).len() && 0 <= i < runs(s, p)[k].len() implies p(
        #[trigger] runs(s, p)[k][i],
    ) by {
        assert(maximal_segment(s, p, spans[k].0, spans[k].1));
        assert(runs(s, p)[k][i] == s[spans[k].0 + i]);
    }
}

/// The maximal runs of a class of characters in a string.
pub fn runs_of(s: &str, class: CharClass) -> (r: Vec<String>)
    ensures
        texts(r@) == runs(s@, class.members()),
{
    let chars = chars_of(s);
    let mut found: Vec<String> = Vec::new();
    let mut run: String = String::new();
    let ghost p = class.members();
    let mut i: usize = 0;
    assert(texts(found@) =~= runs(s@.take(0), p));
    while i < chars.len()
        invariant
            chars@ == s@,
            p == class.members(),
            i <= s@.len(),
            run@.len() > 0 <==> i > 0 && p(s@[i - 1]),
            (if run@.len() > 0 {
                texts(found@).push(run@)
            } else {
                texts(found@)
            }) == runs(s@.take(i as int), p),
        decreases s@.len() - i,
    {
        let c = chars[i];
        let ghost seen = s@.take(i + 1);
        let ghost open_runs = runs(s@.take(i as int), p);
        proof {
            assert(seen.drop_last() =~= s@.take(i as int));
            assert(seen.last() == c);
            if i > 0 {
                assert(seen[seen.len() - 2] == s@[i - 1]);
            }
        }
        if class.has(c) {
            let ghost shorter = run@;
            run.push(c);
            proof {
                if shorter.len() > 0 {
                    assert(open_runs.drop_last() =~= texts(found@));
                } else {
                    assert(run@ =~= seq![c]);
                }
            }
        } else if run.as_str().is_empty() == false {
            proof {
                lemma_texts_push(found@, run);
            }
            found.push(run);
            run = String::new();
        }
        i += 1;
    }
    assert(s@.take(s@.len() as int) =~= s@);
    if run.as_str().is_empty() == false {
        proof {
            lemma_texts_push(found@, run);
        }
        found.push(run);
    }
    found
}

} // verus!
