//! What typo correction gives, said of distances, lengths and the order of the pool.

use vstd::prelude::*;
use vstd::utf8::encode_utf8;

use crate::distance::edit_distance;
use crate::fuzzy::{resolved, NameIndex};
use crate::sql::{FUZZY_EDIT_DISTANCE_SQL, FUZZY_NAME_SQL};
use crate::suggestions::{
    allowed_edits, edits_away, law_ranking, law_suggestions_are_the_nearest, near, ranking,
    ranks_before, ranks_with, suggestions, NameCandidate,
};
use crate::text::lowercase;

verus! {

/// The Levenshtein distance of a name from what was typed, both in lower case.
pub open spec fn distance_of(typed: Seq<char>, candidate: NameCandidate) -> nat {
    edit_distance(lowercase(typed), lowercase(candidate.name@))
}

/// How far a name may be from what was typed, by the bytes of its lowercase form.
pub open spec fn tolerance(typed: Seq<char>) -> nat {
    if encode_utf8(lowercase(typed)).len() >= 8 {
        3
    } else if encode_utf8(lowercase(typed)).len() >= 4 {
        2
    } else {
        1
    }
}

/// The candidates within the tolerance.
pub open spec fn within(typed: Seq<char>) -> spec_fn(NameCandidate) -> bool {
    |candidate: NameCandidate| distance_of(typed, candidate) <= tolerance(typed)
}

/// Whether one candidate is nearer than another, or as near with a name no longer.
pub open spec fn no_worse(typed: Seq<char>, a: NameCandidate, b: NameCandidate) -> bool {
    &&& distance_of(typed, a) <= distance_of(typed, b)
    &&& distance_of(typed, a) == distance_of(typed, b) ==> encode_utf8(a.name@).len()
        <= encode_utf8(b.name@).len()
}

proof fn lemma_no_worse(typed: Seq<char>, a: NameCandidate, b: NameCandidate)
    ensures
        no_worse(typed, a, b) <==> !ranks_before(typed, b, a),
        allowed_edits(typed) == tolerance(typed),
        edits_away(typed, a) == distance_of(typed, a),
{
}

/// Of any two suggestions the earlier one is no farther from what was typed than the later one,
/// and where they are equally far, its name is no longer.
pub proof fn law_nearest_come_first(typed: Seq<char>, pool: Seq<NameCandidate>, i: int, j: int)
    requires
        0 <= i < j < suggestions(typed, pool).len(),
    ensures
        distance_of(typed, suggestions(typed, pool)[i]) <= distance_of(
            typed,
            suggestions(typed, pool)[j],
        ),
        no_worse(typed, suggestions(typed, pool)[i], suggestions(typed, pool)[j]),
{
    law_suggestions_are_the_nearest(typed, pool);
    let s = suggestions(typed, pool);
    assert(!ranks_before(typed, s[j], s[i]));
    lemma_no_worse(typed, s[i], s[j]);
}

/// Every suggestion is a name of the pool within the tolerance: one edit for up to three bytes,
/// two for four to seven, three from eight on.
pub proof fn law_suggestions_are_within_tolerance(
    typed: Seq<char>,
    pool: Seq<NameCandidate>,
    i: int,
)
    requires
        0 <= i < suggestions(typed, pool).len(),
    ensures
        pool.contains(suggestions(typed, pool)[i]),
        distance_of(typed, suggestions(typed, pool)[i]) <= tolerance(typed),
{
    law_suggestions_are_the_nearest(typed, pool);
    lemma_no_worse(typed, suggestions(typed, pool)[i], suggestions(typed, pool)[i]);
}

/// There are as many suggestions as the pool has names within the tolerance, up to ten.
pub proof fn law_as_many_suggestions_as_there_are(typed: Seq<char>, pool: Seq<NameCandidate>)
    ensures
        pool.filter(within(typed)).len() <= 10 ==> suggestions(typed, pool).len() == pool.filter(
            within(typed),
        ).len(),
        pool.filter(within(typed)).len() > 10 ==> suggestions(typed, pool).len() == 10,
{
    law_suggestions_are_the_nearest(typed, pool);
    assert forall|c: NameCandidate| #[trigger] near(typed)(c) == within(typed)(c) by {
        lemma_no_worse(typed, c, c);
    }
    assert(near(typed) =~= within(typed));
}

/// A name of the pool within the tolerance that is not suggested gave way to ten that are no
/// farther from what was typed than it is, nor longer where they are as far.
pub proof fn law_what_is_left_out_is_no_nearer(
    typed: Seq<char>,
    pool: Seq<NameCandidate>,
    candidate: NameCandidate,
)
    requires
        pool.contains(candidate),
        distance_of(typed, candidate) <= tolerance(typed),
        !suggestions(typed, pool).contains(candidate),
    ensures
        suggestions(typed, pool).len() == 10,
        forall|i: int|
            0 <= i < suggestions(typed, pool).len() ==> distance_of(
                typed,
                #[trigger] suggestions(typed, pool)[i],
            ) <= distance_of(typed, candidate),
        forall|i: int|
            0 <= i < suggestions(typed, pool).len() ==> no_worse(
                typed,
                #[trigger] suggestions(typed, pool)[i],
                candidate,
            ),
{
    law_suggestions_are_the_nearest(typed, pool);
    lemma_no_worse(typed, candidate, candidate);
    let s = suggestions(typed, pool);
    assert forall|i: int| 0 <= i < s.len() implies no_worse(
        typed,
        #[trigger] s[i],
        candidate,
    ) by {
        lemma_no_worse(typed, s[i], candidate);
        assert(!ranks_before(typed, candidate, s[i]));
    }
}

proof fn lemma_filter_keeps_order<T>(s: Seq<T>, p: spec_fn(T) -> bool, i: int, j: int) -> (at: (
    int,
    int,
))
    requires
        0 <= i < j < s.len(),
        p(s[i]),
        p(s[j]),
    ensures
        0 <= at.0 < at.1 < s.filter(p).len(),
        s.filter(p)[at.0] == s[i],
        s.filter(p)[at.1] == s[j],
    decreases s.len(),
{
    let init = s.drop_last();
    assert(init.push(s.last()) =~= s);
    init.lemma_filter_push(s.last(), p);
    if j < s.len() - 1 {
        lemma_filter_keeps_order(init, p, i, j)
    } else {
        init.lemma_filter_contains(p, i);
        assert(init.filter(p).contains(init[i]));
        let u = choose|u: int| 0 <= u < init.filter(p).len() && init.filter(p)[u] == init[i];
        (u, init.filter(p).len() as int)
    }
}

proof fn lemma_filter_came_in_order<T>(s: Seq<T>, p: spec_fn(T) -> bool, u: int, v: int) -> (at: (
    int,
    int,
))
    requires
        0 <= u < v < s.filter(p).len(),
    ensures
        0 <= at.0 < at.1 < s.len(),
        s[at.0] == s.filter(p)[u],
        s[at.1] == s.filter(p)[v],
    decreases s.len(),
{
    s.lemma_filter_len(p);
    let init = s.drop_last();
    assert(init.push(s.last()) =~= s);
    init.lemma_filter_push(s.last(), p);
    if v < init.filter(p).len() {
        let at = lemma_filter_came_in_order(init, p, u, v);
        assert(s[at.0] == init[at.0]);
        assert(s[at.1] == init[at.1]);
        at
    } else {
        let x = init.filter(p)[u];
        assert(init.filter(p).contains(x));
        init.lemma_filter_contains_rev(p, x);
        assert(init.contains(x));
        let a = choose|a: int| 0 <= a < init.len() && init[a] == x;
        assert(s[a] == x);
        (a, s.len() - 1)
    }
}

/// Suggestions that are equally far and equally long stand in the order of the pool.
pub proof fn law_equals_keep_the_order_of_the_pool(
    typed: Seq<char>,
    pool: Seq<NameCandidate>,
    i: int,
    j: int,
)
    requires
        0 <= i < j < suggestions(typed, pool).len(),
        distance_of(typed, suggestions(typed, pool)[i]) == distance_of(
            typed,
            suggestions(typed, pool)[j],
        ),
        encode_utf8(suggestions(typed, pool)[i].name@).len() == encode_utf8(
            suggestions(typed, pool)[j].name@,
        ).len(),
    ensures
        exists|a: int, b: int|
            0 <= a < b < pool.len() && #[trigger] pool[a] == suggestions(typed, pool)[i]
                && #[trigger] pool[b] == suggestions(typed, pool)[j],
{
    let close = pool.filter(near(typed));
    let all = ranking(typed, close);
    let s = suggestions(typed, pool);
    law_ranking(typed, close);
    let p = ranks_with(typed, s[i]);
    lemma_no_worse(typed, s[i], s[j]);
    lemma_no_worse(typed, s[j], s[i]);
    assert(all[i] == s[i] && all[j] == s[j]);
    assert(p(all[i]) && p(all[j]));
    let at = lemma_filter_keeps_order(all, p, i, j);
    assert(all.filter(p) == close.filter(p));
    let from = lemma_filter_came_in_order(close, p, at.0, at.1);
    let found = lemma_filter_came_in_order(pool, near(typed), from.0, from.1);
    assert(pool[found.0] == s[i] && pool[found.1] == s[j]);
}

/// The statements of the two passes, in full: the first finds names that hold the text or whose
/// tokens hold the tokens, the exact name first, then names that begin with the text, then the
/// shorter; the second hands out a bounded pool in the order of the ids. Both leave out modules
/// and names bound outside the project.
pub proof fn law_name_statements()
    ensures
        FUZZY_NAME_SQL@ == "SELECT DISTINCT n.name, f.path, n.type, n.id, n.start_line
         FROM nodes n
         JOIN files f ON f.id = n.file_id
         WHERE (n.name LIKE ?1 ESCAPE '\\' OR n.name_tokens LIKE ?3 ESCAPE '\\')
           AND n.type != 'module'
           AND f.path <> '<external>'
         ORDER BY
           CASE WHEN n.name = ?2 THEN 0
                WHEN n.name LIKE ?4 || '%' ESCAPE '\\' THEN 1
                ELSE 2
           END,
           LENGTH(n.name)
         LIMIT 10"@,
        FUZZY_EDIT_DISTANCE_SQL@ == "SELECT DISTINCT n.name, f.path, n.type, n.id, n.start_line
         FROM nodes n
         JOIN files f ON f.id = n.file_id
         WHERE n.type != 'module'
           AND f.path <> '<external>'
         ORDER BY n.id
         LIMIT 5000"@,
{
}

/// Every name that the first pass finds is given, in its order; where it finds none, the nearest
/// of the pool are; where a pass that is needed fails, the search fails.
pub proof fn law_what_a_name_search_gives(index: NameIndex, typed: Seq<char>)
    ensures
        ({
            let names = (index.names)(
                FUZZY_NAME_SQL@,
                crate::fuzzy::name_parameters(typed, (index.tokens)(typed)),
            );
            let pool = (index.pool)(FUZZY_EDIT_DISTANCE_SQL@);
            match names {
                None => resolved(index, typed) is None,
                Some(found) => if found.len() > 0 {
                    resolved(index, typed) == Some(found)
                } else {
                    match pool {
                        None => resolved(index, typed) is None,
                        Some(candidates) => resolved(index, typed) == Some(
                            suggestions(typed, candidates),
                        ),
                    }
                },
            }
        }),
{
}

} // verus!
