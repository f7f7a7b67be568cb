//! What a search gives back for what the database answers, row by row and case by case.

use vstd::prelude::*;
use vstd::utf8::encode_utf8;

use crate::guarantees::index_terms;
use crate::index::{rescued, searched, Asked, Index};
use crate::like::{holding_pattern, to_holding_pattern};
use crate::result::{ranked, scanned, FtsResultView, MatchRow, NodeResult};
use crate::search::{ReplyView, RequestView, SearchView, StageView};
use crate::sql::{all_of, any_of, match_sql, probe_sql, scan_sql};
use crate::terms::{no_terms_reason, query_words, scan_terms, user_word_count};
use crate::vocabulary::{kept, law_query_shapes};

verus! {

/// Whether a result holds every row that was handed out, in its order, and nothing else: one node
/// and one score for each, the score the row's value with the sign flipped.
pub open spec fn carries(r: FtsResultView, rows: Seq<MatchRow>) -> bool {
    &&& r.nodes.len() == rows.len()
    &&& r.bm25_scores.len() == rows.len()
    &&& forall|i: int|
        0 <= i < rows.len() ==> r.nodes[i] == (#[trigger] rows[i]).node && r.bm25_scores[i]
            == rows[i].bm25 ^ 0x8000_0000_0000_0000u64
    &&& r.empty_reason is None
    &&& !r.cjk_substring_fallback
}

/// Whether a result is empty in every way, with this reason.
pub open spec fn says_nothing(r: FtsResultView, reason: Option<Seq<char>>) -> bool {
    &&& r.nodes.len() == 0
    &&& r.bm25_scores.len() == 0
    &&& !r.or_fallback
    &&& !r.cjk_substring_fallback
    &&& r.empty_reason == reason
}

/// A result of MATCH holds every row that was handed out.
pub proof fn law_ranked_rows_are_all_there(rows: Seq<MatchRow>, or_fallback: bool)
    ensures
        carries(ranked(rows, or_fallback), rows),
        ranked(rows, or_fallback).or_fallback == or_fallback,
{
}

/// A result of the substring scan holds every node that was handed out, in its order, each with
/// the score zero, and says where it came from; without nodes it says nothing.
pub proof fn law_scanned_nodes_are_all_there(nodes: Seq<NodeResult>)
    ensures
        scanned(nodes).nodes == nodes,
        scanned(nodes).bm25_scores.len() == nodes.len(),
        forall|i: int|
            0 <= i < nodes.len() ==> #[trigger] scanned(nodes).bm25_scores[i] == 0u64,
        scanned(nodes).cjk_substring_fallback <==> nodes.len() > 0,
        !scanned(nodes).or_fallback,
        scanned(nodes).empty_reason is None,
{
    assert(scanned(nodes).nodes =~= nodes);
}

/// What a database holds for an expression, as a search asks for it.
pub open spec fn rows_for(index: Index, asked: Asked, expression: Seq<char>) -> Option<
    Seq<MatchRow>,
> {
    (index.rows)(match_sql(asked.exclude_tests), expression, asked.limit)
}

/// Whether the database is known to hold a term as a phrase.
pub open spec fn known(index: Index, asked: Asked, term: Seq<char>) -> bool {
    (index.has_row)(probe_sql(asked.exclude_tests), seq!['"'] + term + seq!['"']) == Some(true)
}

/// The known ones, as a function value.
pub open spec fn known_ones(index: Index, asked: Asked) -> spec_fn(Seq<char>) -> bool {
    |term: Seq<char>| known(index, asked, term)
}

/// How a search ends with rows of MATCH: with all of them, or, where there is none, with what the
/// substring scan gives.
pub open spec fn ends_with_rows(
    index: Index,
    asked: Asked,
    rows: Seq<MatchRow>,
    widened: bool,
) -> bool {
    if rows.len() > 0 {
        searched(index, asked) matches Some(r) && carries(r, rows) && r.or_fallback == widened
    } else {
        searched(index, asked) == rescued(index, asked)
    }
}

/// Nothing to look for: the answer says why, and nothing else.
pub proof fn law_without_terms(index: Index, asked: Asked)
    requires
        index_terms(index, asked.query).len() == 0,
    ensures
        searched(index, asked) matches Some(r) && says_nothing(
            r,
            Some(no_terms_reason(asked.query)),
        ),
{
}

/// One term: its rows, not widened.
pub proof fn law_with_one_term(index: Index, asked: Asked)
    requires
        index_terms(index, asked.query).len() == 1,
    ensures
        match rows_for(index, asked, any_of(index_terms(index, asked.query))) {
            Some(rows) => ends_with_rows(index, asked, rows, false),
            None => searched(index, asked) is None,
        },
{
}

/// Several terms: three rows or more that hold all of them are all that is given, not widened.
/// With one row or two, whatever the query is made of, it is the rows that hold any of them,
/// widened. If the rows cannot be had, the search fails.
pub proof fn law_with_several_terms(index: Index, asked: Asked)
    requires
        index_terms(index, asked.query).len() >= 2,
    ensures
        match rows_for(index, asked, all_of(index_terms(index, asked.query))) {
            Some(rows) => {
                &&& rows.len() >= 3 ==> ends_with_rows(index, asked, rows, false)
                &&& rows.len() == 1 || rows.len() == 2 ==> match rows_for(
                    index,
                    asked,
                    any_of(index_terms(index, asked.query)),
                ) {
                    Some(more) => ends_with_rows(index, asked, more, true),
                    None => searched(index, asked) is None,
                }
            },
            None => searched(index, asked) is None,
        },
{
}

/// Whether several terms are asked for and no row holds all of them.
pub open spec fn no_row_holds_all(index: Index, asked: Asked) -> bool {
    &&& index_terms(index, asked.query).len() >= 2
    &&& rows_for(index, asked, all_of(index_terms(index, asked.query))) == Some(
        Seq::<MatchRow>::empty(),
    )
}

/// Two typed words or more that no row holds together: the rows that hold any of the terms,
/// widened.
pub proof fn law_listed_words_that_never_meet(index: Index, asked: Asked)
    requires
        no_row_holds_all(index, asked),
        user_word_count(asked.query) >= 2,
    ensures
        match rows_for(index, asked, any_of(index_terms(index, asked.query))) {
            Some(more) => ends_with_rows(index, asked, more, true),
            None => searched(index, asked) is None,
        },
{
    law_query_shapes(asked.query);
}

/// One typed word in several pieces that no row holds together. Where the index knows at least
/// one piece and does not know at least one, however many, the answer is the rows that hold all
/// of exactly the known pieces, widened. Where it knows all of them or none, MATCH finds nothing.
/// Where it cannot be asked, the search fails.
pub proof fn law_pieces_that_never_meet(index: Index, asked: Asked)
    requires
        no_row_holds_all(index, asked),
        user_word_count(asked.query) <= 1,
        query_words(asked.query).len() >= 2,
    ensures
        ({
            let terms = index_terms(index, asked.query);
            let all_known = forall|i: int|
                0 <= i < terms.len() ==> known(index, asked, #[trigger] terms[i]);
            let none_known = forall|i: int|
                0 <= i < terms.len() ==> !known(index, asked, #[trigger] terms[i]);
            if !(index.probes)(probe_sql(asked.exclude_tests)) {
                searched(index, asked) is None
            } else if all_known || none_known {
                searched(index, asked) == rescued(index, asked)
            } else {
                match rows_for(index, asked, all_of(terms.filter(known_ones(index, asked)))) {
                    Some(rows) => ends_with_rows(index, asked, rows, true),
                    None => searched(index, asked) is None,
                }
            }
        }),
{
    law_query_shapes(asked.query);
    let terms = index_terms(index, asked.query);
    let p = known_ones(index, asked);
    assert(p =~= crate::index::known_to(index, asked.exclude_tests));
    let surviving = terms.filter(p);
    lemma_filter_sizes(terms, p);
}

proof fn lemma_filter_sizes(s: Seq<Seq<char>>, p: spec_fn(Seq<char>) -> bool)
    ensures
        s.filter(p).len() <= s.len(),
        s.filter(p).len() == 0 <==> forall|i: int| 0 <= i < s.len() ==> !p(#[trigger] s[i]),
        s.filter(p).len() == s.len() <==> forall|i: int| 0 <= i < s.len() ==> p(#[trigger] s[i]),
    decreases s.len(),
{
    if s.len() == 0 {
        assert(s.filter(p) =~= s);
    } else {
        let init = s.drop_last();
        lemma_filter_sizes(init, p);
        assert(init.push(s.last()) =~= s);
        init.lemma_filter_push(s.last(), p);
        assert(s[s.len() - 1] == s.last());
        assert(forall|i: int| 0 <= i < init.len() ==> init[i] == s[i]);
        if forall|i: int| 0 <= i < s.len() ==> !p(#[trigger] s[i]) {
            assert forall|i: int| 0 <= i < init.len() implies !p(#[trigger] init[i]) by {
                assert(!p(s[i]));
            }
        }
        if forall|i: int| 0 <= i < s.len() ==> p(#[trigger] s[i]) {
            assert forall|i: int| 0 <= i < init.len() implies p(#[trigger] init[i]) by {
                assert(p(s[i]));
            }
        }
    }
}

/// One typed word that is one term, of which no row holds all the parts. Where the index knows
/// the word itself, the answer is the rows that hold any of the parts, widened; where it does
/// not, MATCH finds nothing; where that cannot be told, the search fails. A word of one byte is
/// not looked up: the rows that hold any of what it stands for are given.
pub proof fn law_one_word_whose_parts_never_meet(index: Index, asked: Asked)
    requires
        no_row_holds_all(index, asked),
        user_word_count(asked.query) <= 1,
        query_words(asked.query).len() == 1,
    ensures
        ({
            let word = kept(query_words(asked.query)[0]);
            let sql = probe_sql(asked.exclude_tests);
            let any = rows_for(index, asked, any_of(index_terms(index, asked.query)));
            let looked_up = encode_utf8(word).len() >= 2;
            let found = (index.has_row)(sql, seq!['"'] + word + seq!['"']);
            if looked_up && (!(index.probes)(sql) || found is None) {
                searched(index, asked) is None
            } else if looked_up && found == Some(false) {
                searched(index, asked) == rescued(index, asked)
            } else {
                match any {
                    Some(more) => ends_with_rows(index, asked, more, true),
                    None => searched(index, asked) is None,
                }
            }
        }),
{
    law_query_shapes(asked.query);
}

/// The substring scan is asked where the query has one to thirty-two terms in scripts without
/// spaces, with one pattern for each term, in their order, and the caller's limit. It gives every
/// node that was handed out. Without such terms, or with more, it gives nothing and asks nothing.
pub proof fn law_what_the_scan_gives(index: Index, asked: Asked)
    ensures
        ({
            let terms = scan_terms(asked.query);
            let patterns = Seq::new(terms.len(), |i: int| holding_pattern(terms[i]));
            if terms.len() == 0 || terms.len() > 32 {
                rescued(index, asked) matches Some(r) && says_nothing(r, None)
            } else {
                match (index.scan)(
                    scan_sql(terms.len(), asked.exclude_tests),
                    patterns,
                    asked.limit,
                ) {
                    Some(nodes) => {
                        rescued(index, asked) matches Some(r) && {
                            &&& r.nodes == nodes
                            &&& r.bm25_scores.len() == nodes.len()
                            &&& forall|i: int|
                                0 <= i < nodes.len() ==> #[trigger] r.bm25_scores[i] == 0u64
                            &&& r.cjk_substring_fallback <==> nodes.len() > 0
                            &&& !r.or_fallback
                            &&& r.empty_reason is None
                        }
                    },
                    None => rescued(index, asked) is None,
                }
            }
        }),
{
    let terms = scan_terms(asked.query);
    let patterns = Seq::new(terms.len(), |i: int| holding_pattern(terms[i]));
    assert(patterns =~= terms.map_values(to_holding_pattern()));
    match (index.scan)(scan_sql(terms.len(), asked.exclude_tests), patterns, asked.limit) {
        Some(nodes) => law_scanned_nodes_are_all_there(nodes),
        None => {},
    }
}

/// Whether an answer is of the kind that was asked for, with one entry for each thing asked.
pub open spec fn answers(request: RequestView, reply: ReplyView) -> bool {
    match (request, reply) {
        (RequestView::Split { words }, ReplyView::Splits(splits)) => splits.len() == words.len(),
        (RequestView::Expand { tokens }, ReplyView::Expansions(lists)) => lists.len()
            == tokens.len(),
        (RequestView::Match { .. }, ReplyView::Rows(_)) => true,
        (RequestView::Probe { expressions, .. }, ReplyView::Probed(found)) => found.len()
            == expressions.len(),
        (RequestView::Scan { .. }, ReplyView::Nodes(_)) => true,
        _ => false,
    }
}

/// An answer that is none to the pending question fails the search; so does the word that it
/// failed. With an answer that is one, a search fails only if it cannot tell whether the index
/// knows the one word that it looked up.
pub proof fn law_only_answers_go_on(search: SearchView, reply: ReplyView)
    requires
        search.pending() is Some,
    ensures
        !answers(search.pending()->0, reply) ==> search.next(reply).stage is Failed,
        answers(search.pending()->0, reply) && search.next(reply).stage is Failed
            ==> search.stage is ProbingWord && (reply matches ReplyView::Probed(found)
            && found.len() == 1 && found[0] is None),
{
    match (search.stage, reply) {
        (StageView::ProbingWord { .. }, ReplyView::Probed(found)) => match found[0] {
            Some(yes) => {
                if yes {
                    assert(found[0] == Some(true));
                } else {
                    assert(found[0] == Some(false));
                }
            },
            None => {},
        },
        _ => {},
    }
}

} // verus!
