//! The order in which a query lists its words does not matter.

use vstd::prelude::*;
use vstd::seq_lib::lemma_multiset_commutative;

use crate::classes::{white_space, CharClass};
use crate::index::{query_shape, query_tokens, searched, terms_from_tokens, Asked, Index};
use crate::order::law_distinct_sorted_depends_on_members;
use crate::permutation::{
    lemma_filter_permuted, lemma_flatten_permuted, lemma_map_permuted, lemma_same_members,
};
use crate::runs::runs;
use crate::terms::{
    counts_as_user_word, no_terms_reason, not_a_stop_word, query_words, raw_terms, scan_terms,
    tokens_of, user_word_count,
};

verus! {

/// The words of a query: what stands between white space.
pub open spec fn typed_words(query: Seq<char>) -> Seq<Seq<char>> {
    runs(query, CharClass::NonSpace.members())
}

/// Whether two queries list the same words, each as often, in whatever order.
pub open spec fn same_words(a: Seq<char>, b: Seq<char>) -> bool {
    typed_words(a).to_multiset() == typed_words(b).to_multiset()
}

/// The runs of a class within one text, as a function value.
spec fn runs_within(p: spec_fn(char) -> bool) -> spec_fn(Seq<char>) -> Seq<Seq<char>> {
    |text: Seq<char>| runs(text, p)
}

proof fn lemma_last_run(s: Seq<char>, p: spec_fn(char) -> bool)
    requires
        s.len() > 0,
        p(s.last()),
    ensures
        runs(s, p).len() > 0,
        runs(s, p).last().len() > 0,
        runs(s, p).last().last() == s.last(),
{
}

proof fn lemma_runs_push(s: Seq<char>, c: char, p: spec_fn(char) -> bool)
    ensures
        !p(c) ==> runs(s.push(c), p) == runs(s, p),
        p(c) && s.len() > 0 && p(s.last()) ==> runs(s.push(c), p) == runs(s, p).drop_last().push(
            runs(s, p).last().push(c),
        ),
        p(c) && (s.len() == 0 || !p(s.last())) ==> runs(s.push(c), p) == runs(s, p).push(seq![c]),
{
    assert(s.push(c).drop_last() =~= s);
    if s.len() > 0 {
        assert(s.push(c)[s.push(c).len() - 2] == s.last());
    }
}

/// The runs of a class are the runs within the runs of a wider class, one after the other.
proof fn lemma_runs_within_runs(
    s: Seq<char>,
    wide: spec_fn(char) -> bool,
    narrow: spec_fn(char) -> bool,
)
    requires
        forall|i: int| 0 <= i < s.len() && narrow(#[trigger] s[i]) ==> wide(s[i]),
    ensures
        runs(s, narrow) == runs(s, wide).map_values(runs_within(narrow)).flatten(),
    decreases s.len(),
{
    let f = runs_within(narrow);
    if s.len() == 0 {
        assert(runs(s, wide).map_values(f) =~= Seq::<Seq<Seq<char>>>::empty());
        assert(runs(s, narrow) =~= runs(s, wide).map_values(f).flatten());
    } else {
        let init = s.drop_last();
        let c = s.last();
        assert(init.push(c) =~= s);
        assert(s[s.len() - 1] == c);
        assert forall|i: int| 0 <= i < init.len() && narrow(#[trigger] init[i]) implies wide(
            init[i],
        ) by {
            assert(init[i] == s[i]);
        }
        lemma_runs_within_runs(init, wide, narrow);
        lemma_runs_push(init, c, wide);
        lemma_runs_push(init, c, narrow);
        let words = runs(init, wide);
        let found = runs(init, narrow);
        if wide(c) {
            if init.len() > 0 && wide(init.last()) {
                lemma_last_run(init, wide);
                let before = words.drop_last();
                let word = words.last();
                let inside = runs(word, narrow);
                assert(before.push(word) =~= words);
                assert(words.map_values(f) =~= before.map_values(f).push(inside));
                before.map_values(f).lemma_flatten_push(inside);
                let longer = runs(word.push(c), narrow);
                assert(before.push(word.push(c)).map_values(f) =~= before.map_values(f).push(
                    longer,
                ));
                before.map_values(f).lemma_flatten_push(longer);
                lemma_runs_push(word, c, narrow);
                let rest = before.map_values(f).flatten();
                assert(found == rest + inside);
                if narrow(c) {
                    if narrow(init.last()) {
                        lemma_last_run(word, narrow);
                        assert(found.drop_last().push(found.last().push(c)) =~= rest + longer);
                    } else {
                        assert(found.push(seq![c]) =~= rest + longer);
                    }
                }
            } else {
                let nothing = Seq::<char>::empty();
                lemma_runs_push(nothing, c, narrow);
                assert(nothing.push(c) =~= seq![c]);
                let inside = runs(seq![c], narrow);
                assert(words.push(seq![c]).map_values(f) =~= words.map_values(f).push(inside));
                words.map_values(f).lemma_flatten_push(inside);
                if init.len() > 0 {
                    assert(init[init.len() - 1] == init.last());
                    assert(!narrow(init.last()));
                }
                if narrow(c) {
                    assert(found.push(seq![c]) =~= found + inside);
                } else {
                    assert(found =~= found + inside);
                }
            }
        }
    }
}

/// Queries with the same words have the same runs of a class that holds no white space.
proof fn lemma_runs_permuted(a: Seq<char>, b: Seq<char>, p: spec_fn(char) -> bool)
    requires
        same_words(a, b),
        forall|i: int| 0 <= i < a.len() && p(#[trigger] a[i]) ==> !white_space(a[i]),
        forall|i: int| 0 <= i < b.len() && p(#[trigger] b[i]) ==> !white_space(b[i]),
    ensures
        runs(a, p).to_multiset() == runs(b, p).to_multiset(),
{
    let wide = CharClass::NonSpace.members();
    let f = runs_within(p);
    lemma_runs_within_runs(a, wide, p);
    lemma_runs_within_runs(b, wide, p);
    lemma_map_permuted(typed_words(a), typed_words(b), f);
    lemma_flatten_permuted(typed_words(a).map_values(f), typed_words(b).map_values(f));
}

/// The words of a query may stand in any order: two queries that list the same words, each as
/// often, find the same rows in the same order, widened or not in the same way, with the same
/// scores and the same reason where nothing was looked for; and fail together.
pub proof fn law_word_order_does_not_matter(
    index: Index,
    a: Seq<char>,
    b: Seq<char>,
    limit: i64,
    exclude_tests: bool,
)
    requires
        same_words(a, b),
    ensures
        searched(index, (Asked { query: a, limit, exclude_tests })) == searched(
            index,
            (Asked { query: b, limit, exclude_tests }),
        ),
{
    // What MATCH is asked for.
    lemma_runs_permuted(a, b, CharClass::Term.members());
    lemma_same_members(raw_terms(a), raw_terms(b));
    lemma_filter_permuted(raw_terms(a), raw_terms(b), not_a_stop_word());
    lemma_same_members(query_words(a), query_words(b));
    let splits_a = query_words(a).map_values(index.split);
    let splits_b = query_words(b).map_values(index.split);
    lemma_map_permuted(query_words(a), query_words(b), index.split);
    lemma_map_permuted(splits_a, splits_b, tokens_of());
    lemma_flatten_permuted(splits_a.map_values(tokens_of()), splits_b.map_values(tokens_of()));
    let tokens_a = query_tokens(index, a);
    let tokens_b = query_tokens(index, b);
    lemma_same_members(tokens_a, tokens_b);
    lemma_map_permuted(tokens_a, tokens_b, index.expand);
    let full_a = tokens_a.map_values(index.expand).flatten();
    let full_b = tokens_b.map_values(index.expand).flatten();
    lemma_flatten_permuted(tokens_a.map_values(index.expand), tokens_b.map_values(index.expand));
    lemma_multiset_commutative(tokens_a, full_a);
    lemma_multiset_commutative(tokens_b, full_b);
    lemma_same_members(tokens_a + full_a, tokens_b + full_b);
    law_distinct_sorted_depends_on_members(tokens_a + full_a, tokens_b + full_b);
    assert(terms_from_tokens(index, tokens_a) == terms_from_tokens(index, tokens_b));
    assert(no_terms_reason(a) == no_terms_reason(b));
    // What the query is made of.
    lemma_filter_permuted(typed_words(a), typed_words(b), counts_as_user_word());
    lemma_same_members(
        typed_words(a).filter(counts_as_user_word()),
        typed_words(b).filter(counts_as_user_word()),
    );
    assert(user_word_count(a) == user_word_count(b));
    if query_words(a).len() == 1 {
        let word = query_words(a)[0];
        assert(query_words(a).contains(word));
        assert(query_words(b).contains(word));
    }
    assert(query_shape(a) == query_shape(b));
    // What the substring scan looks for.
    let p = CharClass::UnsegmentedScript.members();
    lemma_runs_permuted(a, b, p);
    lemma_same_members(runs(a, p), runs(b, p));
    law_distinct_sorted_depends_on_members(runs(a, p), runs(b, p));
    assert(scan_terms(a) == scan_terms(b));
}

} // verus!
