//! Typo correction: the names of a pool that are a few edits away, the nearest first.

use vstd::multiset::group_multiset_axioms;
use vstd::prelude::*;

use crate::distance::{edit_distance, levenshtein};
use crate::permutation::{lemma_filter_multiset, lemma_same_members};
use crate::text::{byte_len, byte_len_of, lowercase};

verus! {

/// The most names that are suggested.
pub const MAX_SUGGESTIONS: usize = 10;

/// Candidate result from fuzzy function name matching.
#[derive(Debug, Clone)]
pub struct NameCandidate {
    pub name: String,
    pub file_path: String,
    pub node_type: String,
    pub node_id: i64,
    pub start_line: i64,
}

/// How many edits a name may be away: one for up to three bytes of what was typed, two for up to
/// seven, else three.
pub open spec fn allowed_edits(typed: Seq<char>) -> nat {
    let bytes = byte_len(lowercase(typed));
    if bytes <= 3 {
        1
    } else if bytes <= 7 {
        2
    } else {
        3
    }
}

/// How many edits a name is away from what was typed, in whatever case either is written.
pub open spec fn edits_away(typed: Seq<char>, candidate: NameCandidate) -> nat {
    edit_distance(lowercase(typed), lowercase(candidate.name@))
}

/// The candidates that are near enough.
pub open spec fn near(typed: Seq<char>) -> spec_fn(NameCandidate) -> bool {
    |candidate: NameCandidate| edits_away(typed, candidate) <= allowed_edits(typed)
}

/// Whether one candidate ranks before another: fewer edits away, or as many and a shorter name.
pub open spec fn ranks_before(typed: Seq<char>, a: NameCandidate, b: NameCandidate) -> bool {
    ||| edits_away(typed, a) < edits_away(typed, b)
    ||| edits_away(typed, a) == edits_away(typed, b) && byte_len(a.name@) < byte_len(b.name@)
}

/// The candidates that rank as this one does.
pub open spec fn ranks_with(typed: Seq<char>, like: NameCandidate) -> spec_fn(
    NameCandidate,
) -> bool {
    |candidate: NameCandidate|
        !ranks_before(typed, candidate, like) && !ranks_before(typed, like, candidate)
}

/// No candidate ranks before an earlier one.
pub open spec fn in_rank_order(typed: Seq<char>, r: Seq<NameCandidate>) -> bool {
    forall|i: int, j: int|
        0 <= i < j < r.len() ==> !ranks_before(typed, #[trigger] r[j], #[trigger] r[i])
}

/// The same candidates in rank order, those of one rank in the order that they had.
pub open spec fn is_ranking(
    typed: Seq<char>,
    r: Seq<NameCandidate>,
    s: Seq<NameCandidate>,
) -> bool {
    &&& in_rank_order(typed, r)
    &&& forall|like: NameCandidate| #[trigger]
        r.filter(ranks_with(typed, like)) == s.filter(ranks_with(typed, like))
}

/// The candidates in rank order, those of one rank in the order that they had.
pub open spec fn ranking(typed: Seq<char>, s: Seq<NameCandidate>) -> Seq<NameCandidate> {
    choose|r: Seq<NameCandidate>| is_ranking(typed, r, s)
}

/// The first of a sequence, as many as there may be.
pub open spec fn first_few(r: Seq<NameCandidate>) -> Seq<NameCandidate> {
    if r.len() <= MAX_SUGGESTIONS {
        r
    } else {
        r.take(MAX_SUGGESTIONS as int)
    }
}

/// The suggestions for what was typed: the near candidates of the pool, the best of them.
pub open spec fn suggestions(typed: Seq<char>, pool: Seq<NameCandidate>) -> Seq<NameCandidate> {
    first_few(ranking(typed, pool.filter(near(typed))))
}

/// How many candidates stand at the front of a ranking before which `c` does not rank.
spec fn place(typed: Seq<char>, r: Seq<NameCandidate>, c: NameCandidate) -> nat
    decreases r.len(),
{
    if r.len() == 0 {
        0
    } else if ranks_before(typed, c, r.last()) {
        place(typed, r.drop_last(), c)
    } else {
        r.len()
    }
}

proof fn lemma_place(typed: Seq<char>, r: Seq<NameCandidate>, c: NameCandidate)
    requires
        in_rank_order(typed, r),
    ensures
        place(typed, r, c) <= r.len(),
        forall|i: int|
            0 <= i < place(typed, r, c) ==> !ranks_before(typed, c, #[trigger] r[i]),
        forall|i: int| place(typed, r, c) <= i < r.len() ==> ranks_before(typed, c, #[trigger] r[i]),
    decreases r.len(),
{
    if r.len() > 0 {
        let init = r.drop_last();
        assert(r[r.len() - 1] == r.last());
        if ranks_before(typed, c, r.last()) {
            assert forall|i: int, j: int| 0 <= i < j < init.len() implies !ranks_before(
                typed,
                #[trigger] init[j],
                #[trigger] init[i],
            ) by {
                assert(!ranks_before(typed, r[j], r[i]));
            }
            lemma_place(typed, init, c);
            assert forall|i: int| 0 <= i < place(typed, r, c) implies !ranks_before(
                typed,
                c,
                #[trigger] r[i],
            ) by {
                assert(!ranks_before(typed, c, init[i]));
            }
            assert forall|i: int| place(typed, r, c) <= i < r.len() implies ranks_before(
                typed,
                c,
                #[trigger] r[i],
            ) by {
                if i < init.len() {
                    assert(ranks_before(typed, c, init[i]));
                }
            }
        } else {
            assert forall|i: int| 0 <= i < r.len() implies !ranks_before(
                typed,
                c,
                #[trigger] r[i],
            ) by {
                if i < r.len() - 1 {
                    assert(!ranks_before(typed, r[r.len() - 1], r[i]));
                }
            }
        }
    }
}

proof fn lemma_filter_add(
    a: Seq<NameCandidate>,
    b: Seq<NameCandidate>,
    p: spec_fn(NameCandidate) -> bool,
)
    ensures
        (a + b).filter(p) == a.filter(p) + b.filter(p),
    decreases b.len(),
{
    if b.len() == 0 {
        assert(a + b =~= a);
        assert(b.filter(p) =~= Seq::<NameCandidate>::empty());
        assert(a.filter(p) + b.filter(p) =~= a.filter(p));
    } else {
        let init = b.drop_last();
        lemma_filter_add(a, init, p);
        assert(a + b =~= (a + init).push(b.last()));
        assert(init.push(b.last()) =~= b);
        (a + init).lemma_filter_push(b.last(), p);
        init.lemma_filter_push(b.last(), p);
        assert((a + b).filter(p) =~= a.filter(p) + b.filter(p));
    }
}

proof fn lemma_filter_none(s: Seq<NameCandidate>, p: spec_fn(NameCandidate) -> bool)
    requires
        forall|i: int| 0 <= i < s.len() ==> !p(#[trigger] s[i]),
    ensures
        s.filter(p) == Seq::<NameCandidate>::empty(),
    decreases s.len(),
{
    if s.len() == 0 {
        assert(s.filter(p) =~= Seq::<NameCandidate>::empty());
    } else {
        let init = s.drop_last();
        assert forall|i: int| 0 <= i < init.len() implies !p(#[trigger] init[i]) by {
            assert(!p(s[i]));
        }
        lemma_filter_none(init, p);
        assert(!p(s[s.len() - 1]));
        assert(init.push(s.last()) =~= s);
        init.lemma_filter_push(s.last(), p);
    }
}

/// A candidate put in its place behind those that it does not rank before.
proof fn lemma_insert(
    typed: Seq<char>,
    r: Seq<NameCandidate>,
    s: Seq<NameCandidate>,
    c: NameCandidate,
    at: int,
)
    requires
        is_ranking(typed, r, s),
        0 <= at <= r.len(),
        forall|i: int| 0 <= i < at ==> !ranks_before(typed, c, #[trigger] r[i]),
        forall|i: int| at <= i < r.len() ==> ranks_before(typed, c, #[trigger] r[i]),
    ensures
        is_ranking(typed, r.insert(at, c), s.push(c)),
{
    let t = r.insert(at, c);
    assert forall|i: int, j: int| 0 <= i < j < t.len() implies !ranks_before(
        typed,
        #[trigger] t[j],
        #[trigger] t[i],
    ) by {
        let x = if i < at {
            r[i]
        } else if i == at {
            c
        } else {
            r[i - 1]
        };
        let y = if j < at {
            r[j]
        } else if j == at {
            c
        } else {
            r[j - 1]
        };
        assert(t[i] == x && t[j] == y);
        if i == at {
            assert(ranks_before(typed, c, r[j - 1]));
        } else if j == at {
            assert(!ranks_before(typed, c, r[i]));
        }
    }
    assert forall|like: NameCandidate| #[trigger]
        t.filter(ranks_with(typed, like)) == s.push(c).filter(ranks_with(typed, like)) by {
        let p = ranks_with(typed, like);
        let front = r.take(at);
        let back = r.skip(at);
        assert(r =~= front + back);
        assert(t =~= front.push(c) + back);
        lemma_filter_add(front, back, p);
        lemma_filter_add(front.push(c), back, p);
        front.lemma_filter_push(c, p);
        s.lemma_filter_push(c, p);
        assert(r.filter(p) == s.filter(p));
        if p(c) {
            assert forall|i: int| 0 <= i < back.len() implies !p(#[trigger] back[i]) by {
                assert(ranks_before(typed, c, r[at + i]));
            }
            lemma_filter_none(back, p);
            assert(t.filter(p) =~= s.push(c).filter(p));
        }
    }
}

proof fn lemma_ranking_exists(typed: Seq<char>, s: Seq<NameCandidate>)
    ensures
        exists|r: Seq<NameCandidate>| is_ranking(typed, r, s),
    decreases s.len(),
{
    if s.len() == 0 {
        assert(is_ranking(typed, s, s));
    } else {
        let init = s.drop_last();
        lemma_ranking_exists(typed, init);
        let r = ranking(typed, init);
        let at = place(typed, r, s.last()) as int;
        lemma_place(typed, r, s.last());
        lemma_insert(typed, r, init, s.last(), at);
        assert(init.push(s.last()) =~= s);
        assert(is_ranking(typed, r.insert(at, s.last()), s));
    }
}

proof fn lemma_last_of_rank(typed: Seq<char>, r: Seq<NameCandidate>)
    requires
        r.len() > 0,
    ensures
        ({
            let kept = r.filter(ranks_with(typed, r.last()));
            kept.len() > 0 && kept.last() == r.last()
        }),
{
    let p = ranks_with(typed, r.last());
    assert(r.drop_last().push(r.last()) =~= r);
    r.drop_last().lemma_filter_push(r.last(), p);
}

proof fn lemma_last_ranks_last(typed: Seq<char>, r: Seq<NameCandidate>, t: Seq<NameCandidate>)
    requires
        in_rank_order(typed, t),
        r.len() > 0,
        r.filter(ranks_with(typed, r.last())) == t.filter(ranks_with(typed, r.last())),
    ensures
        t.len() > 0,
        !ranks_before(typed, t.last(), r.last()),
{
    let p = ranks_with(typed, r.last());
    lemma_last_of_rank(typed, r);
    assert(t.filter(p).contains(r.last()));
    t.lemma_filter_contains_rev(p, r.last());
    assert(t.contains(r.last()));
    let k = choose|k: int| 0 <= k < t.len() && t[k] == r.last();
    if k < t.len() - 1 {
        assert(!ranks_before(typed, t[t.len() - 1], t[k]));
    }
}

proof fn lemma_ranking_unique(
    typed: Seq<char>,
    a: Seq<NameCandidate>,
    b: Seq<NameCandidate>,
)
    requires
        in_rank_order(typed, a),
        in_rank_order(typed, b),
        forall|like: NameCandidate| #[trigger]
            a.filter(ranks_with(typed, like)) == b.filter(ranks_with(typed, like)),
    ensures
        a == b,
    decreases a.len(),
{
    if a.len() == 0 {
        if b.len() > 0 {
            assert(b.filter(ranks_with(typed, b.last())) == a.filter(ranks_with(typed, b.last())));
            lemma_last_ranks_last(typed, b, a);
        }
        assert(a =~= b);
    } else {
        let x = a.last();
        lemma_last_ranks_last(typed, a, b);
        let y = b.last();
        assert(b.filter(ranks_with(typed, y)) == a.filter(ranks_with(typed, y)));
        lemma_last_ranks_last(typed, b, a);
        let p = ranks_with(typed, x);
        assert(ranks_with(typed, y) =~= p);
        lemma_last_of_rank(typed, a);
        lemma_last_of_rank(typed, b);
        assert(x == y);
        let a1 = a.drop_last();
        let b1 = b.drop_last();
        assert(a1.push(x) =~= a);
        assert(b1.push(x) =~= b);
        assert forall|i: int, j: int| 0 <= i < j < a1.len() implies !ranks_before(
            typed,
            #[trigger] a1[j],
            #[trigger] a1[i],
        ) by {
            assert(!ranks_before(typed, a[j], a[i]));
        }
        assert forall|i: int, j: int| 0 <= i < j < b1.len() implies !ranks_before(
            typed,
            #[trigger] b1[j],
            #[trigger] b1[i],
        ) by {
            assert(!ranks_before(typed, b[j], b[i]));
        }
        assert forall|like: NameCandidate| #[trigger]
            a1.filter(ranks_with(typed, like)) == b1.filter(ranks_with(typed, like)) by {
            let q = ranks_with(typed, like);
            a1.lemma_filter_push(x, q);
            b1.lemma_filter_push(x, q);
            assert(a.filter(q) == b.filter(q));
            if q(x) {
                assert(a1.filter(q).push(x).drop_last() =~= a1.filter(q));
                assert(b1.filter(q).push(x).drop_last() =~= b1.filter(q));
            }
        }
        lemma_ranking_unique(typed, a1, b1);
    }
}

/// There is one way, and only one, to rank candidates.
pub proof fn law_ranking(typed: Seq<char>, s: Seq<NameCandidate>)
    ensures
        is_ranking(typed, ranking(typed, s), s),
        forall|r: Seq<NameCandidate>| #[trigger] is_ranking(typed, r, s) ==> r == ranking(typed, s),
{
    lemma_ranking_exists(typed, s);
    assert forall|r: Seq<NameCandidate>| #[trigger] is_ranking(typed, r, s) implies r == ranking(
        typed,
        s,
    ) by {
        let t = ranking(typed, s);
        assert forall|like: NameCandidate| #[trigger]
            r.filter(ranks_with(typed, like)) == t.filter(ranks_with(typed, like)) by {
            assert(t.filter(ranks_with(typed, like)) == s.filter(ranks_with(typed, like)));
        }
        lemma_ranking_unique(typed, r, t);
    }
}

/// A ranking holds the candidates that were given, each as often, and no others.
pub proof fn law_ranking_is_a_permutation(typed: Seq<char>, s: Seq<NameCandidate>)
    ensures
        ranking(typed, s).to_multiset() == s.to_multiset(),
        ranking(typed, s).len() == s.len(),
{
    broadcast use group_multiset_axioms;

    let r = ranking(typed, s);
    law_ranking(typed, s);
    assert forall|c: NameCandidate| #[trigger] r.to_multiset().count(c) == s.to_multiset().count(
        c,
    ) by {
        let p = ranks_with(typed, c);
        lemma_filter_multiset(r, p);
        lemma_filter_multiset(s, p);
        assert(r.filter(p) == s.filter(p));
        assert(r.to_multiset().filter(p).count(c) == s.to_multiset().filter(p).count(c));
    }
    assert(r.to_multiset() =~= s.to_multiset());
    lemma_same_members(r, s);
}

/// No candidate is suggested twice from a pool that holds none twice.
pub proof fn law_suggestions_do_not_repeat(typed: Seq<char>, pool: Seq<NameCandidate>)
    requires
        pool.no_duplicates(),
    ensures
        suggestions(typed, pool).no_duplicates(),
{
    broadcast use group_multiset_axioms;

    let close = pool.filter(near(typed));
    let all = ranking(typed, close);
    pool.lemma_multiset_has_no_duplicates();
    lemma_filter_multiset(pool, near(typed));
    law_ranking_is_a_permutation(typed, close);
    assert forall|c: NameCandidate| all.to_multiset().contains(c) implies all.to_multiset().count(c)
        == 1 by {
        assert(pool.to_multiset().contains(c));
    }
    all.lemma_multiset_has_no_duplicates_conv();
}

/// Every suggestion is a candidate of the pool that is near enough. There are as many as there
/// are near ones, or [`MAX_SUGGESTIONS`] if that is fewer, the best first. One that is near
/// enough and is not suggested was crowded out: there are as many suggestions as there may be,
/// and it ranks before none of them.
pub proof fn law_suggestions_are_the_nearest(typed: Seq<char>, pool: Seq<NameCandidate>)
    ensures
        suggestions(typed, pool).len() == (if pool.filter(near(typed)).len() <= MAX_SUGGESTIONS {
            pool.filter(near(typed)).len()
        } else {
            MAX_SUGGESTIONS as nat
        }),
        in_rank_order(typed, suggestions(typed, pool)),
        forall|i: int|
            0 <= i < suggestions(typed, pool).len() ==> {
                let c = #[trigger] suggestions(typed, pool)[i];
                pool.contains(c) && edits_away(typed, c) <= allowed_edits(typed)
            },
        forall|c: NameCandidate| #[trigger]
            pool.contains(c) && edits_away(typed, c) <= allowed_edits(typed)
                && !suggestions(typed, pool).contains(c) ==> {
                &&& suggestions(typed, pool).len() == MAX_SUGGESTIONS
                &&& forall|i: int|
                    0 <= i < suggestions(typed, pool).len() ==> !ranks_before(
                        typed,
                        c,
                        #[trigger] suggestions(typed, pool)[i],
                    )
            },
{
    let close = pool.filter(near(typed));
    let all = ranking(typed, close);
    let few = suggestions(typed, pool);
    law_ranking(typed, close);
    law_ranking_is_a_permutation(typed, close);
    assert forall|i: int, j: int| 0 <= i < j < few.len() implies !ranks_before(
        typed,
        #[trigger] few[j],
        #[trigger] few[i],
    ) by {
        assert(!ranks_before(typed, all[j], all[i]));
    }
    assert forall|i: int| 0 <= i < few.len() implies {
        let c = #[trigger] few[i];
        pool.contains(c) && edits_away(typed, c) <= allowed_edits(typed)
    } by {
        let c = few[i];
        assert(all[i] == c);
        assert(all.contains(c));
        lemma_same_members(all, close);
        assert(close.contains(c));
        let k = choose|k: int| 0 <= k < close.len() && close[k] == c;
        pool.lemma_filter_pred(near(typed), k);
        pool.lemma_filter_contains_rev(near(typed), c);
    }
    assert forall|c: NameCandidate| #[trigger]
        pool.contains(c) && edits_away(typed, c) <= allowed_edits(typed) && !few.contains(
            c,
        ) implies {
        &&& few.len() == MAX_SUGGESTIONS
        &&& forall|i: int| 0 <= i < few.len() ==> !ranks_before(typed, c, #[trigger] few[i])
    } by {
        let k = choose|k: int| 0 <= k < pool.len() && pool[k] == c;
        assert(near(typed)(pool[k]));
        pool.lemma_filter_contains(near(typed), k);
        lemma_same_members(all, close);
        let at = choose|at: int| 0 <= at < all.len() && all[at] == c;
        if at < few.len() {
            assert(few[at] == c);
        }
        assert forall|i: int| 0 <= i < few.len() implies !ranks_before(
            typed,
            c,
            #[trigger] few[i],
        ) by {
            assert(!ranks_before(typed, all[at], all[i]));
        }
    }
}

/// How many edits a name may be away, from the length in bytes of what was typed in lower case.
fn edits_for(bytes: usize) -> (n: usize)
    ensures
        n == (if bytes <= 3 {
            1int
        } else if bytes <= 7 {
            2
        } else {
            3
        }),
{
    if bytes <= 3 {
        1
    } else if bytes <= 7 {
        2
    } else {
        3
    }
}

/// The suggestions for what was typed.
pub fn suggest(typed: &str, pool: Vec<NameCandidate>) -> (r: Vec<NameCandidate>)
    ensures
        r@ == suggestions(typed@, pool@),
        r@.len() <= 10,
        forall|i: int, j: int|
            0 <= i < j < r@.len() ==> edit_distance(
                lowercase(typed@),
                lowercase((#[trigger] r@[i]).name@),
            ) <= edit_distance(lowercase(typed@), lowercase((#[trigger] r@[j]).name@)),
{
    let lower = typed.to_lowercase();
    let most = edits_for(byte_len_of(lower.as_str()));
    let ghost all = pool@;
    let ghost p = near(typed@);
    let mut kept: Vec<NameCandidate> = Vec::new();
    let mut edits: Vec<usize> = Vec::new();
    proof {
        assert(all.take(0).filter(p) =~= Seq::<NameCandidate>::empty());
        assert(is_ranking(typed@, kept@, all.take(0).filter(p)));
    }
    for candidate in it: pool
        invariant
            it.seq() == all,
            p == near(typed@),
            lower@ == lowercase(typed@),
            most == allowed_edits(typed@),
            edits@.len() == kept@.len(),
            forall|i: int|
                0 <= i < kept@.len() ==> #[trigger] edits@[i] == edits_away(typed@, kept@[i]),
            is_ranking(typed@, kept@, all.take(it.index() as int).filter(p)),
    {
        let ghost before = all.take(it.index() as int);
        let away = levenshtein(lower.as_str(), candidate.name.to_lowercase().as_str());
        proof {
            assert(all.take(it.index() + 1) =~= before.push(candidate));
            before.lemma_filter_push(candidate, p);
        }
        if away <= most {
            let bytes = byte_len_of(candidate.name.as_str());
            let at = place_for(typed, &kept, &edits, &candidate, away, bytes);
            proof {
                lemma_insert(typed@, kept@, before.filter(p), candidate, at as int);
            }
            kept.insert(at, candidate);
            edits.insert(at, away);
        }
    }
    proof {
        assert(all.take(all.len() as int) =~= all);
        law_ranking(typed@, all.filter(p));
    }
    kept.truncate(MAX_SUGGESTIONS);
    proof {
        let s = suggestions(typed@, all);
        law_suggestions_are_the_nearest(typed@, all);
        assert(kept@ == s);
        assert forall|i: int, j: int| 0 <= i < j < kept@.len() implies edit_distance(
            lowercase(typed@),
            lowercase((#[trigger] kept@[i]).name@),
        ) <= edit_distance(lowercase(typed@), lowercase((#[trigger] kept@[j]).name@)) by {
            assert(!ranks_before(typed@, s[j], s[i]));
        }
    }
    kept
}

/// Where a candidate belongs: behind the last one that it does not rank before.
fn place_for(
    typed: &str,
    kept: &Vec<NameCandidate>,
    edits: &Vec<usize>,
    candidate: &NameCandidate,
    away: usize,
    bytes: usize,
) -> (at: usize)
    requires
        in_rank_order(typed@, kept@),
        edits@.len() == kept@.len(),
        forall|i: int|
            0 <= i < kept@.len() ==> #[trigger] edits@[i] == edits_away(typed@, kept@[i]),
        away == edits_away(typed@, *candidate),
        bytes == byte_len(candidate.name@),
    ensures
        at <= kept@.len(),
        forall|i: int| 0 <= i < at ==> !ranks_before(typed@, *candidate, #[trigger] kept@[i]),
        forall|i: int|
            at <= i < kept@.len() ==> ranks_before(typed@, *candidate, #[trigger] kept@[i]),
{
    let mut at: usize = kept.len();
    while at > 0
        invariant
            at <= kept@.len(),
            in_rank_order(typed@, kept@),
            edits@.len() == kept@.len(),
            forall|i: int|
                0 <= i < kept@.len() ==> #[trigger] edits@[i] == edits_away(typed@, kept@[i]),
            away == edits_away(typed@, *candidate),
            bytes == byte_len(candidate.name@),
            forall|i: int|
                at <= i < kept@.len() ==> ranks_before(typed@, *candidate, #[trigger] kept@[i]),
        decreases at,
    {
        let other = edits[at - 1];
        if away > other || (away == other && bytes >= byte_len_of(kept[at - 1].name.as_str())) {
            assert forall|i: int| 0 <= i < at implies !ranks_before(
                typed@,
                *candidate,
                #[trigger] kept@[i],
            ) by {
                if i < at - 1 {
                    assert(!ranks_before(typed@, kept@[at - 1], kept@[i]));
                }
            }
            return at;
        }
        at -= 1;
    }
    at
}

} // verus!
