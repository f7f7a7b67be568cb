//! The order of texts, and sets of texts kept in that order.

use vstd::prelude::*;

use crate::text::{chars_of, texts};

verus! {

/// Where one text first falls behind another: they agree before `at`, and there the first ends
/// or has the smaller character.
pub open spec fn falls_behind_at(a: Seq<char>, b: Seq<char>, at: int) -> bool {
    &&& 0 <= at <= a.len()
    &&& at < b.len()
    &&& forall|i: int| 0 <= i < at ==> #[trigger] a[i] == b[i]
    &&& at == a.len() || a[at] < b[at]
}

/// The order of texts by code point. It is the order of their UTF-8 bytes too
/// ([`crate::bytes::law_order_is_byte_order`]).
pub open spec fn text_less(a: Seq<char>, b: Seq<char>) -> bool {
    exists|at: int| falls_behind_at(a, b, at)
}

/// No text comes before itself.
pub proof fn law_order_irreflexive(a: Seq<char>)
    ensures
        !text_less(a, a),
{
}

/// The order is transitive.
pub proof fn law_order_transitive(a: Seq<char>, b: Seq<char>, c: Seq<char>)
    requires
        text_less(a, b),
        text_less(b, c),
    ensures
        text_less(a, c),
{
    let i = choose|at: int| falls_behind_at(a, b, at);
    let j = choose|at: int| falls_behind_at(b, c, at);
    let k = if i <= j {
        i
    } else {
        j
    };
    assert(falls_behind_at(a, c, k));
}

/// Of two different texts one comes first.
pub proof fn law_order_total(a: Seq<char>, b: Seq<char>)
    ensures
        text_less(a, b) || a == b || text_less(b, a),
    decreases a.len(),
{
    if a.len() == 0 {
        if b.len() > 0 {
            assert(falls_behind_at(a, b, 0));
        } else {
            assert(a =~= b);
        }
    } else if b.len() == 0 {
        assert(falls_behind_at(b, a, 0));
    } else {
        let x = a.drop_last();
        let n = x.len() as int;
        law_order_total(x, b);
        assert(forall|i: int| 0 <= i < n ==> #[trigger] a[i] == x[i]);
        if text_less(b, x) {
            let at = choose|at: int| falls_behind_at(b, x, at);
            assert(forall|i: int| 0 <= i < at ==> #[trigger] b[i] == x[i]);
            assert(falls_behind_at(b, a, at));
        } else if x == b {
            assert(falls_behind_at(b, a, n));
        } else {
            let at = choose|at: int| falls_behind_at(x, b, at);
            if at < n {
                assert(falls_behind_at(a, b, at));
            } else if a[n] < b[n] {
                assert(falls_behind_at(a, b, n));
            } else if b[n] < a[n] {
                assert(falls_behind_at(b, a, n));
            } else if b.len() == a.len() {
                assert(a =~= b);
            } else {
                assert(falls_behind_at(a, b, n + 1));
            }
        }
    }
}

/// Whether one string comes before another.
pub fn comes_before(a: &str, b: &str) -> (r: bool)
    ensures
        r == text_less(a@, b@),
{
    let x = chars_of(a);
    let y = chars_of(b);
    let mut i: usize = 0;
    while i < x.len() && i < y.len()
        invariant
            x@ == a@,
            y@ == b@,
            i <= x@.len(),
            i <= y@.len(),
            forall|j: int| 0 <= j < i ==> #[trigger] a@[j] == b@[j],
        decreases x@.len() - i,
    {
        if x[i] != y[i] {
            if x[i] < y[i] {
                assert(falls_behind_at(a@, b@, i as int));
                return true;
            }
            assert(falls_behind_at(b@, a@, i as int));
            proof {
                lemma_not_both(a@, b@);
            }
            return false;
        }
        i += 1;
    }
    if i < y.len() {
        assert(falls_behind_at(a@, b@, i as int));
        return true;
    }
    proof {
        assert forall|at: int| !falls_behind_at(a@, b@, at) by {
            if falls_behind_at(a@, b@, at) && at < x@.len() {
                assert(a@[at] == b@[at]);
            }
        }
    }
    false
}

proof fn lemma_not_both(a: Seq<char>, b: Seq<char>)
    requires
        text_less(b, a),
    ensures
        !text_less(a, b),
{
    if text_less(a, b) {
        law_order_transitive(a, b, a);
    }
}

/// Every text comes before all the later ones: sorted, and nothing twice.
pub open spec fn strictly_ascending(s: Seq<Seq<char>>) -> bool {
    forall|i: int, j: int| 0 <= i < j < s.len() ==> text_less(#[trigger] s[i], #[trigger] s[j])
}

/// The same texts, each once and in order.
pub open spec fn is_distinct_sorted(r: Seq<Seq<char>>, s: Seq<Seq<char>>) -> bool {
    &&& strictly_ascending(r)
    &&& forall|t: Seq<char>| r.contains(t) <==> #[trigger] s.contains(t)
}

/// The texts of a sequence, each once and in order.
pub open spec fn distinct_sorted(s: Seq<Seq<char>>) -> Seq<Seq<char>> {
    choose|r: Seq<Seq<char>>| is_distinct_sorted(r, s)
}

/// There is one way, and only one, to put the texts of a sequence in order, each once.
pub proof fn law_distinct_sorted(s: Seq<Seq<char>>)
    ensures
        is_distinct_sorted(distinct_sorted(s), s),
        forall|r: Seq<Seq<char>>| #[trigger] is_distinct_sorted(r, s) ==> r == distinct_sorted(s),
{
    lemma_distinct_sorted_exists(s);
    assert forall|r: Seq<Seq<char>>| #[trigger] is_distinct_sorted(r, s) implies r
        == distinct_sorted(s) by {
        lemma_distinct_sorted_unique(r, distinct_sorted(s), s);
    }
}

/// Which texts there are decides the result: not their order, nor how often they stand there.
pub proof fn law_distinct_sorted_depends_on_members(s: Seq<Seq<char>>, t: Seq<Seq<char>>)
    requires
        forall|x: Seq<char>| s.contains(x) <==> #[trigger] t.contains(x),
    ensures
        distinct_sorted(s) == distinct_sorted(t),
{
    law_distinct_sorted(s);
    law_distinct_sorted(t);
    assert forall|x: Seq<char>| distinct_sorted(s).contains(x) <==> #[trigger] t.contains(x) by {
        assert(s.contains(x) <==> t.contains(x));
    }
    assert(is_distinct_sorted(distinct_sorted(s), t));
}

/// How many texts of a sorted sequence come before `t` from the front.
spec fn place(s: Seq<Seq<char>>, t: Seq<char>) -> nat
    decreases s.len(),
{
    if s.len() == 0 || !text_less(s[0], t) {
        0
    } else {
        1 + place(s.drop_first(), t)
    }
}

proof fn lemma_place(s: Seq<Seq<char>>, t: Seq<char>)
    requires
        strictly_ascending(s),
    ensures
        place(s, t) <= s.len(),
        forall|i: int| 0 <= i < place(s, t) ==> text_less(#[trigger] s[i], t),
        place(s, t) < s.len() ==> !text_less(s[place(s, t) as int], t),
    decreases s.len(),
{
    if s.len() > 0 && text_less(s[0], t) {
        let rest = s.drop_first();
        lemma_place(rest, t);
        assert forall|i: int| 0 <= i < place(s, t) implies text_less(#[trigger] s[i], t) by {
            if i > 0 {
                assert(s[i] == rest[i - 1]);
            }
        }
    }
}

/// Putting a text where it belongs keeps the sequence sorted and free of repetition.
proof fn lemma_insert(r: Seq<Seq<char>>, s: Seq<Seq<char>>, t: Seq<char>, at: int)
    requires
        is_distinct_sorted(r, s),
        0 <= at <= r.len(),
        forall|i: int| 0 <= i < at ==> text_less(#[trigger] r[i], t),
        at < r.len() ==> !text_less(r[at], t),
    ensures
        at < r.len() && r[at] == t ==> is_distinct_sorted(r, s.push(t)),
        !(at < r.len() && r[at] == t) ==> is_distinct_sorted(r.insert(at, t), s.push(t)),
{
    let pushed = s.push(t);
    assert forall|x: Seq<char>| #[trigger] pushed.contains(x) <==> s.contains(x) || x == t by {
        if s.contains(x) {
            let i = choose|i: int| 0 <= i < s.len() && s[i] == x;
            assert(pushed[i] == x);
        }
        if x == t {
            assert(pushed[s.len() as int] == x);
        }
    }
    if at < r.len() && r[at] == t {
        assert(r.contains(t));
        assert(s.contains(t));
    } else {
        let q = r.insert(at, t);
        if at < r.len() {
            law_order_total(r[at], t);
        }
        assert forall|i: int, j: int| 0 <= i < j < q.len() implies text_less(
            #[trigger] q[i],
            #[trigger] q[j],
        ) by {
            if j < at {
                assert(text_less(r[i], r[j]));
            } else if j == at {
                assert(text_less(r[i], t));
            } else if i < at {
                assert(text_less(r[i], r[j - 1]));
            } else if i == at {
                assert(text_less(t, r[at]));
                if j - 1 > at {
                    assert(text_less(r[at], r[j - 1]));
                    law_order_transitive(t, r[at], r[j - 1]);
                }
            } else {
                assert(text_less(r[i - 1], r[j - 1]));
            }
        }
        assert forall|x: Seq<char>| q.contains(x) <==> #[trigger] pushed.contains(x) by {
            if q.contains(x) {
                let i = choose|i: int| 0 <= i < q.len() && q[i] == x;
                if i < at {
                    assert(r[i] == x);
                } else if i > at {
                    assert(r[i - 1] == x);
                }
                if x != t {
                    assert(r.contains(x));
                    assert(s.contains(x));
                }
            }
            if pushed.contains(x) {
                if x == t {
                    assert(q[at] == x);
                } else {
                    assert(s.contains(x));
                    assert(r.contains(x));
                    let i = choose|i: int| 0 <= i < r.len() && r[i] == x;
                    if i < at {
                        assert(q[i] == x);
                    } else {
                        assert(q[i + 1] == x);
                    }
                }
            }
        }
    }
}

proof fn lemma_distinct_sorted_exists(s: Seq<Seq<char>>)
    ensures
        exists|r: Seq<Seq<char>>| is_distinct_sorted(r, s),
    decreases s.len(),
{
    if s.len() == 0 {
        assert(is_distinct_sorted(Seq::<Seq<char>>::empty(), s));
    } else {
        let init = s.drop_last();
        let t = s.last();
        lemma_distinct_sorted_exists(init);
        let r = choose|r: Seq<Seq<char>>| is_distinct_sorted(r, init);
        let at = place(r, t) as int;
        lemma_place(r, t);
        lemma_insert(r, init, t, at);
        assert(init.push(t) =~= s);
    }
}

proof fn lemma_distinct_sorted_unique(a: Seq<Seq<char>>, b: Seq<Seq<char>>, s: Seq<Seq<char>>)
    requires
        is_distinct_sorted(a, s),
        is_distinct_sorted(b, s),
    ensures
        a == b,
    decreases a.len() + b.len(),
{
    if a.len() == 0 || b.len() == 0 {
        if a.len() > 0 {
            assert(a.contains(a[0]));
            assert(s.contains(a[0]));
            assert(b.contains(a[0]));
        }
        if b.len() > 0 {
            assert(b.contains(b[0]));
            assert(s.contains(b[0]));
            assert(a.contains(b[0]));
        }
        assert(a =~= b);
    } else {
        let x = a.last();
        let y = b.last();
        assert(a.contains(x));
        assert(s.contains(x));
        assert(b.contains(x));
        assert(b.contains(y));
        assert(s.contains(y));
        assert(a.contains(y));
        let i = choose|i: int| 0 <= i < b.len() && b[i] == x;
        let j = choose|j: int| 0 <= j < a.len() && a[j] == y;
        if i < b.len() - 1 && j < a.len() - 1 {
            assert(text_less(b[i], b[b.len() - 1]));
            assert(text_less(a[j], a[a.len() - 1]));
            lemma_not_both(x, y);
        }
        assert(x == y);
        let aa = a.drop_last();
        let bb = b.drop_last();
        assert forall|t: Seq<char>| aa.contains(t) <==> #[trigger] bb.contains(t) by {
            lemma_drop_last_members(a, t);
            lemma_drop_last_members(b, t);
            assert(a.contains(t) <==> s.contains(t));
            assert(b.contains(t) <==> s.contains(t));
        }
        assert(is_distinct_sorted(aa, bb));
        assert(is_distinct_sorted(bb, bb));
        lemma_distinct_sorted_unique(aa, bb, bb);
        assert(a =~= aa.push(x));
        assert(b =~= bb.push(y));
    }
}

proof fn lemma_drop_last_members(a: Seq<Seq<char>>, t: Seq<char>)
    requires
        strictly_ascending(a),
        a.len() > 0,
    ensures
        a.drop_last().contains(t) <==> a.contains(t) && t != a.last(),
{
    let aa = a.drop_last();
    if aa.contains(t) {
        let i = choose|i: int| 0 <= i < aa.len() && aa[i] == t;
        assert(a[i] == t);
        assert(text_less(a[i], a[a.len() - 1]));
        law_order_irreflexive(t);
    }
    if a.contains(t) && t != a.last() {
        let i = choose|i: int| 0 <= i < a.len() && a[i] == t;
        assert(aa[i] == t);
    }
}

/// Puts a text into a sorted sequence of texts, unless it is there.
fn insert_distinct(sorted: &mut Vec<String>, s: String, Ghost(from): Ghost<Seq<Seq<char>>>)
    requires
        is_distinct_sorted(texts(old(sorted)@), from),
    ensures
        is_distinct_sorted(texts(final(sorted)@), from.push(s@)),
{
    let mut at: usize = 0;
    while at < sorted.len() && comes_before(sorted[at].as_str(), s.as_str())
        invariant
            sorted@ == old(sorted)@,
            at <= sorted@.len(),
            forall|i: int| 0 <= i < at ==> text_less(#[trigger] texts(sorted@)[i], s@),
        ensures
            at < sorted@.len() ==> !text_less(texts(sorted@)[at as int], s@),
        decreases sorted@.len() - at,
    {
        at += 1;
    }
    let ghost before = texts(sorted@);
    proof {
        lemma_insert(before, from, s@, at as int);
    }
    if at < sorted.len() && crate::text::same_text(sorted[at].as_str(), s.as_str()) {
        return;
    }
    let ghost text = s@;
    sorted.insert(at, s);
    assert(texts(sorted@) =~= before.insert(at as int, text));
}

/// The texts of the strings, each once and in order.
pub fn sort_distinct(strings: Vec<String>) -> (r: Vec<String>)
    ensures
        texts(r@) == distinct_sorted(texts(strings@)),
{
    let mut sorted: Vec<String> = Vec::new();
    let ghost all = texts(strings@);
    let mut i: usize = 0;
    assert(is_distinct_sorted(texts(sorted@), all.take(0)));
    while i < strings.len()
        invariant
            all == texts(strings@),
            i <= strings@.len(),
            is_distinct_sorted(texts(sorted@), all.take(i as int)),
        decreases strings@.len() - i,
    {
        let s = strings[i].clone();
        insert_distinct(&mut sorted, s, Ghost(all.take(i as int)));
        assert(all.take(i + 1) =~= all.take(i as int).push(s@));
        i += 1;
    }
    proof {
        assert(all.take(all.len() as int) =~= all);
        law_distinct_sorted(all);
    }
    sorted
}

} // verus!
