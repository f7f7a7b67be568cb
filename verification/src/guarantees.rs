//! What holds of every search, whatever the index answers.

use vstd::prelude::*;

use crate::classes::{term_char, unsegmented_script, CharClass};
use crate::index::{
    known_to, matched, matched_any, matched_less, matched_surviving, or_rescued, query_shape,
    query_tokens, rescued, searched, terms_from_tokens, worth_rescuing, Asked, Index, QueryShape,
    AND_MATCH_FLOOR, CJK_SCAN_MAX_TERMS,
};
use crate::like::{holding_pattern, law_nothing_to_escape, to_holding_pattern};
use crate::order::{law_distinct_sorted, strictly_ascending};
use crate::result::{
    nothing_found, ranked, row_nodes, row_scores, scanned, FtsResultView, MatchRow, NodeResult,
    SCORE_ZERO,
};
use crate::runs::{
    are_the_maximal_segments, law_runs_are_the_maximal_segments, law_runs_hold_the_class,
    maximal_segment, runs,
};
use crate::search::{RequestView, SearchView, StageView};
use crate::sql::{
    all_of, any_of, decimal, join, law_expressions_read_back, match_sql, name_hits, probe_sql,
    quoted, quoting, read_phrases, scan_sql, term_clauses, test_filter, Reading, BM25_EXPR,
    CJK_SCAN_ORDER_TAIL, NODE_SELECT_ALIASED,
};
use crate::terms::{
    clean_term, no_terms_reason, query_words, raw_terms, scan_terms, user_word_count,
};

verus! {

/// The terms that MATCH is asked for.
pub open spec fn index_terms(index: Index, query: Seq<char>) -> Seq<Seq<char>> {
    terms_from_tokens(index, query_tokens(index, query))
}

/// Every result has one score for each node. Its rows are widened in at most one way. A result
/// without rows is never called widened. What the substring scan found has the score zero.
pub proof fn law_results_are_consistent(index: Index, asked: Asked)
    ensures
        searched(index, asked) matches Some(r) ==> {
            &&& r.bm25_scores.len() == r.nodes.len()
            &&& !(r.or_fallback && r.cjk_substring_fallback)
            &&& r.widened() ==> r.nodes.len() > 0 && r.empty_reason is None
            &&& r.cjk_substring_fallback ==> forall|i: int|
                0 <= i < r.bm25_scores.len() ==> #[trigger] r.bm25_scores[i] == SCORE_ZERO
        },
{
}

/// A reason for an empty result is given exactly where the query leaves no term to look for. The
/// reason then depends on the query alone: nothing that the database holds was asked for.
pub proof fn law_reason_iff_nothing_to_look_for(index: Index, asked: Asked)
    ensures
        index_terms(index, asked.query).len() == 0 ==> searched(index, asked) == Some(
            nothing_found(Some(no_terms_reason(asked.query))),
        ),
        searched(index, asked) matches Some(r) ==> (r.empty_reason is Some <==> index_terms(
            index,
            asked.query,
        ).len() == 0),
{
}

/// Enough rows that match all the terms are kept as they are. The number that is enough does not
/// depend on the limit.
pub proof fn law_enough_rows_are_kept(index: Index, asked: Asked, rows: Seq<MatchRow>)
    requires
        index_terms(index, asked.query).len() > 1,
        (index.rows)(
            match_sql(asked.exclude_tests),
            all_of(index_terms(index, asked.query)),
            asked.limit,
        ) == Some(rows),
        rows.len() >= AND_MATCH_FLOOR,
    ensures
        searched(index, asked) == Some(ranked(rows, false)),
{
}

/// A query with a single term is never a widened match of MATCH.
pub proof fn law_single_term_is_not_widened(index: Index, asked: Asked)
    requires
        index_terms(index, asked.query).len() == 1,
    ensures
        searched(index, asked) matches Some(r) ==> !r.or_fallback,
{
}

/// One typed word that punctuation cuts into pieces, and no row holds all of them: the pieces
/// are never looked for one by one. Rows come only from pieces that still stand together in a
/// row after those that the index does not hold were dropped, and such rows are called widened.
/// Where nothing can be dropped, MATCH finds nothing.
pub proof fn law_pieces_of_one_word_stay_together(index: Index, asked: Asked)
    requires
        query_shape(asked.query) is PiecesOfOneWord,
        index_terms(index, asked.query).len() > 1,
        (index.rows)(
            match_sql(asked.exclude_tests),
            all_of(index_terms(index, asked.query)),
            asked.limit,
        ) == Some(Seq::<MatchRow>::empty()),
    ensures
        ({
            let terms = index_terms(index, asked.query);
            let surviving = terms.filter(known_to(index, asked.exclude_tests));
            searched(index, asked) matches Some(r) ==> (r.nodes.len() > 0
                && !r.cjk_substring_fallback ==> {
                &&& 0 < surviving.len() < terms.len()
                &&& (index.rows)(
                    match_sql(asked.exclude_tests),
                    all_of(surviving),
                    asked.limit,
                ) matches Some(rows) && r == ranked(rows, true)
            })
        }),
        ({
            let terms = index_terms(index, asked.query);
            let surviving = terms.filter(known_to(index, asked.exclude_tests));
            (index.probes)(probe_sql(asked.exclude_tests)) && (surviving.len() == 0
                || surviving.len() == terms.len()) ==> searched(index, asked) == rescued(
                index,
                asked,
            )
        }),
{
    let terms = index_terms(index, asked.query);
    terms.lemma_filter_len(known_to(index, asked.exclude_tests));
}

/// One typed word, no row holds all of its parts, and the index does not know the word itself:
/// MATCH finds nothing, however often the parts occur.
pub proof fn law_unknown_word_is_not_widened(index: Index, asked: Asked, word: Seq<char>)
    requires
        query_shape(asked.query) == QueryShape::OneWord(word),
        index_terms(index, asked.query).len() > 1,
        (index.rows)(
            match_sql(asked.exclude_tests),
            all_of(index_terms(index, asked.query)),
            asked.limit,
        ) == Some(Seq::<MatchRow>::empty()),
        (index.probes)(probe_sql(asked.exclude_tests)),
        (index.has_row)(probe_sql(asked.exclude_tests), quoted(word)) == Some(false),
    ensures
        searched(index, asked) == rescued(index, asked),
{
}

/// Two words or more, counted between white space, are words that the user listed. One word that
/// punctuation cuts into several is not.
pub proof fn law_listed_words_are_counted_between_spaces(query: Seq<char>)
    ensures
        user_word_count(query) > 1 ==> query_shape(query) is ListedWords,
        user_word_count(query) <= 1 && query_words(query).len() > 1 ==> query_shape(
            query,
        ) is PiecesOfOneWord,
{
}

/// Several words that the user listed, of which too few rows hold all: the rows that hold any of
/// them are found, and are called widened.
pub proof fn law_listed_words_are_widened(index: Index, asked: Asked, few: Seq<MatchRow>)
    requires
        query_shape(asked.query) is ListedWords,
        index_terms(index, asked.query).len() > 1,
        (index.rows)(
            match_sql(asked.exclude_tests),
            all_of(index_terms(index, asked.query)),
            asked.limit,
        ) == Some(few),
        few.len() < AND_MATCH_FLOOR,
    ensures
        searched(index, asked) == or_rescued(
            index,
            asked,
            matched_any(index, asked, index_terms(index, asked.query)),
        ),
        searched(index, asked) matches Some(r) ==> (r.or_fallback <==> r.nodes.len() > 0
            && !r.cjk_substring_fallback),
{
}

/// The substring scan answers only where MATCH ran and found nothing, and only for a query with
/// at least one and at most [`CJK_SCAN_MAX_TERMS`] terms in a script without spaces. A query of
/// which MATCH finds any row at all, were it only for its other words, is answered by those rows.
pub proof fn law_rescue_comes_last(index: Index, asked: Asked)
    ensures
        searched(index, asked) matches Some(r) ==> (r.cjk_substring_fallback ==> {
            &&& matched(index, asked, index_terms(index, asked.query)) matches Some(found)
                && worth_rescuing(found)
            &&& 1 <= scan_terms(asked.query).len() <= CJK_SCAN_MAX_TERMS
        }),
        matched(index, asked, index_terms(index, asked.query)) matches Some(found) ==> (
        !worth_rescuing(found) ==> searched(index, asked) == Some(found)),
{
}

/// Too many terms in scripts without spaces are an empty answer, not a failure: the database is
/// not asked to scan for them.
pub proof fn law_too_many_scan_terms_find_nothing(index: Index, asked: Asked)
    requires
        scan_terms(asked.query).len() > CJK_SCAN_MAX_TERMS,
    ensures
        rescued(index, asked) == Some(nothing_found(None)),
{
}

/// A query without a character of a script without spaces is never rescued: where MATCH finds
/// nothing, the answer is empty.
pub proof fn law_other_scripts_are_not_scanned(index: Index, asked: Asked)
    requires
        forall|i: int|
            0 <= i < asked.query.len() ==> !unsegmented_script(#[trigger] asked.query[i]),
    ensures
        scan_terms(asked.query).len() == 0,
        rescued(index, asked) == Some(nothing_found(None)),
        searched(index, asked) matches Some(r) ==> !r.cjk_substring_fallback,
{
    let all = runs(asked.query, CharClass::UnsegmentedScript.members());
    let terms = scan_terms(asked.query);
    law_distinct_sorted(all);
    if terms.len() > 0 {
        assert(terms.contains(terms[0]));
        assert(all.contains(terms[0]));
        lemma_no_run(asked.query);
    }
}

proof fn lemma_no_run(s: Seq<char>)
    requires
        forall|i: int| 0 <= i < s.len() ==> !unsegmented_script(#[trigger] s[i]),
    ensures
        runs(s, CharClass::UnsegmentedScript.members()).len() == 0,
    decreases s.len(),
{
    if s.len() > 0 {
        let init = s.drop_last();
        assert forall|i: int| 0 <= i < init.len() implies !unsegmented_script(
            #[trigger] init[i],
        ) by {
            assert(!unsegmented_script(s[i]));
        }
        lemma_no_run(init);
        assert(!unsegmented_script(s[s.len() - 1]));
    }
}

/// The terms of the substring scan are the runs of scripts without spaces, in order, each once.
/// None holds a character of another script, nor one that has to be escaped in a pattern.
pub proof fn law_scan_terms_are_literal(query: Seq<char>)
    ensures
        strictly_ascending(scan_terms(query)),
        forall|term: Seq<char>|
            scan_terms(query).contains(term) <==> #[trigger] runs(
                query,
                CharClass::UnsegmentedScript.members(),
            ).contains(term),
        forall|i: int, k: int|
            0 <= i < scan_terms(query).len() && 0 <= k < scan_terms(query)[i].len()
                ==> unsegmented_script(#[trigger] scan_terms(query)[i][k]),
        forall|i: int|
            0 <= i < scan_terms(query).len() ==> {
                let term = #[trigger] scan_terms(query)[i];
                term.len() > 0 && holding_pattern(term) == seq!['%'] + term + seq!['%']
            },
{
    let p = CharClass::UnsegmentedScript.members();
    let all = runs(query, p);
    let terms = scan_terms(query);
    law_distinct_sorted(all);
    law_runs_hold_the_class(query, p);
    assert forall|i: int, k: int|
        0 <= i < terms.len() && 0 <= k < terms[i].len() implies unsegmented_script(
        #[trigger] terms[i][k],
    ) by {
        assert(terms.contains(terms[i]));
        assert(all.contains(terms[i]));
        let at = choose|at: int| 0 <= at < all.len() && all[at] == terms[i];
        assert(p(all[at][k]));
    }
    assert forall|i: int| 0 <= i < terms.len() implies {
        let term = #[trigger] terms[i];
        term.len() > 0 && holding_pattern(term) == seq!['%'] + term + seq!['%']
    } by {
        let term = terms[i];
        assert(terms.contains(term));
        assert(all.contains(term));
        let k = choose|k: int| 0 <= k < all.len() && all[k] == term;
        assert forall|j: int| 0 <= j < term.len() implies #[trigger] term[j] != '\\' && term[j]
            != '%' && term[j] != '_' by {
            assert(p(all[k][j]));
            assert(unsegmented_script(term[j]));
        }
        law_nothing_to_escape(term);
    }
}

/// Where every character of a script without spaces is a term character too, the substring scan
/// looks for nothing across the end of a term: each of its terms lies within a term of the query.
pub proof fn law_scan_terms_lie_within_terms(query: Seq<char>, term: Seq<char>)
    requires
        forall|i: int|
            0 <= i < query.len() && unsegmented_script(#[trigger] query[i]) ==> term_char(query[i]),
        scan_terms(query).contains(term),
    ensures
        exists|i: int| 0 <= i < raw_terms(query).len() && holds(#[trigger] raw_terms(query)[i], term),
{
    let p = CharClass::UnsegmentedScript.members();
    let q = CharClass::Term.members();
    law_distinct_sorted(runs(query, p));
    assert(runs(query, p).contains(term));
    let k = choose|k: int| 0 <= k < runs(query, p).len() && runs(query, p)[k] == term;
    law_runs_are_the_maximal_segments(query, p);
    law_runs_are_the_maximal_segments(query, q);
    let inner = choose|spans: Seq<(int, int)>| #[trigger]
        are_the_maximal_segments(query, p, spans) && spans.len() == runs(query, p).len() && forall|
            k: int,
        |
            0 <= k < spans.len() ==> #[trigger] runs(query, p)[k] == query.subrange(
                spans[k].0,
                spans[k].1,
            );
    let outer = choose|spans: Seq<(int, int)>| #[trigger]
        are_the_maximal_segments(query, q, spans) && spans.len() == runs(query, q).len() && forall|
            k: int,
        |
            0 <= k < spans.len() ==> #[trigger] runs(query, q)[k] == query.subrange(
                spans[k].0,
                spans[k].1,
            );
    let (a, b) = inner[k];
    assert(maximal_segment(query, p, inner[k].0, inner[k].1));
    assert(term == query.subrange(a, b));
    assert(p(query[a]));
    assert(q(query[a]));
    let i = choose|i: int| 0 <= i < outer.len() && (#[trigger] outer[i]).0 <= a < outer[i].1;
    let (c, d) = outer[i];
    assert(maximal_segment(query, q, outer[i].0, outer[i].1));
    if d < b {
        assert(p(query[d]));
        assert(q(query[d]));
    }
    let whole = raw_terms(query)[i];
    assert(runs(query, q)[i] == query.subrange(c, d));
    let at = a - c;
    assert(whole.subrange(at, at + term.len()) =~= term);
}

/// Whether every answer of the index succeeds.
pub open spec fn never_fails(index: Index) -> bool {
    &&& forall|sql: Seq<char>, expression: Seq<char>, limit: i64|
        (#[trigger] (index.rows)(sql, expression, limit)) is Some
    &&& forall|sql: Seq<char>| #[trigger] (index.probes)(sql)
    &&& forall|sql: Seq<char>, expression: Seq<char>|
        (#[trigger] (index.has_row)(sql, expression)) is Some
    &&& forall|sql: Seq<char>, patterns: Seq<Seq<char>>, limit: i64|
        (#[trigger] (index.scan)(sql, patterns, limit)) is Some
}

/// A search fails only where an answer of the index fails: no query is an error by itself.
pub proof fn law_no_query_is_an_error(index: Index, asked: Asked)
    requires
        never_fails(index),
    ensures
        searched(index, asked) is Some,
{
}

/// Every MATCH expression that a search asks for reads back as phrases, none of which is left
/// open: they are terms made of term characters, whatever the query was, so no part of it acts as
/// query syntax.
pub proof fn law_expressions_are_phrases(search: SearchView)
    requires
        search.well_formed(),
    ensures
        search.pending() matches Some(RequestView::Match { expression, .. }) ==> {
            &&& read_phrases(expression).opened is None
            &&& read_phrases(expression).closed.len() > 0
            &&& forall|i: int|
                0 <= i < read_phrases(expression).closed.len() ==> clean_term(
                    #[trigger] read_phrases(expression).closed[i],
                )
        },
        search.pending() matches Some(RequestView::Probe { expressions, .. }) ==> forall|k: int|
            0 <= k < expressions.len() ==> {
                &&& read_phrases(#[trigger] expressions[k]).opened is None
                &&& read_phrases(expressions[k]).closed.len() == 1
                &&& clean_term(read_phrases(expressions[k]).closed[0])
            },
{
    match search.stage {
        StageView::RequiringAll { terms } => lemma_read_back(terms),
        StageView::RequiringSurvivors { terms } => lemma_read_back(terms),
        StageView::AllowingAny { terms } => lemma_read_back(terms),
        StageView::ProbingPieces { terms } => {
            let expressions = terms.map_values(quoting());
            assert forall|k: int| 0 <= k < expressions.len() implies {
                &&& read_phrases(#[trigger] expressions[k]).opened is None
                &&& read_phrases(expressions[k]).closed.len() == 1
                &&& clean_term(read_phrases(expressions[k]).closed[0])
            } by {
                assert(clean_term(terms[k]));
                lemma_phrase_reads_back(terms[k]);
            }
        },
        StageView::ProbingWord { word, .. } => lemma_phrase_reads_back(word),
        _ => {},
    }
}

proof fn lemma_read_back(terms: Seq<Seq<char>>)
    requires
        forall|i: int| 0 <= i < terms.len() ==> clean_term(#[trigger] terms[i]),
    ensures
        read_phrases(all_of(terms)) == (Reading { closed: terms, opened: None }),
        read_phrases(any_of(terms)) == (Reading { closed: terms, opened: None }),
{
    assert forall|i: int, k: int|
        0 <= i < terms.len() && 0 <= k < terms[i].len() implies term_char(
        #[trigger] terms[i][k],
    ) by {
        assert(clean_term(terms[i]));
    }
    law_expressions_read_back(terms);
}

proof fn lemma_phrase_reads_back(term: Seq<char>)
    requires
        clean_term(term),
    ensures
        read_phrases(quoted(term)).opened is None,
        read_phrases(quoted(term)).closed == seq![term],
{
    let terms = seq![term];
    lemma_read_back(terms);
    assert(terms.map_values(quoting())[0] == quoted(term));
}

/// Whether a text holds another.
pub open spec fn holds(text: Seq<char>, part: Seq<char>) -> bool {
    exists|at: int|
        0 <= at <= text.len() - part.len() && #[trigger] text.subrange(at, at + part.len()) == part
}

proof fn lemma_holds_end(before: Seq<char>, part: Seq<char>)
    ensures
        holds(before + part, part),
{
    let text = before + part;
    let at = before.len() as int;
    assert(text.subrange(at, at + part.len()) =~= part);
}

proof fn lemma_holds_more(text: Seq<char>, part: Seq<char>, more: Seq<char>)
    requires
        holds(text, part),
    ensures
        holds(text + more, part),
{
    let at = choose|at: int|
        0 <= at <= text.len() - part.len() && #[trigger] text.subrange(at, at + part.len()) == part;
    assert((text + more).subrange(at, at + part.len()) =~= text.subrange(at, at + part.len()));
}

/// A search that leaves out test symbols leaves them out of every question to the database, the
/// substring scan included.
pub proof fn law_tests_are_left_out_everywhere(search: SearchView)
    requires
        search.asked.exclude_tests,
    ensures
        search.pending() matches Some(RequestView::Match { sql, .. }) ==> holds(
            sql,
            " AND n.is_test = 0"@,
        ),
        search.pending() matches Some(RequestView::Probe { sql, .. }) ==> holds(
            sql,
            " AND n.is_test = 0"@,
        ),
        search.pending() matches Some(RequestView::Scan { sql, .. }) ==> holds(
            sql,
            " AND n.is_test = 0"@,
        ),
{
    let filter = test_filter(true);
    let from = " FROM nodes_fts fts JOIN nodes n ON n.id = fts.rowid WHERE nodes_fts MATCH ?1"@;
    let head = "SELECT "@ + NODE_SELECT_ALIASED@ + ", "@ + BM25_EXPR@ + from;
    lemma_holds_end(head, filter);
    lemma_holds_more(head + filter, filter, "\n         ORDER BY "@);
    lemma_holds_more(head + filter + "\n         ORDER BY "@, filter, BM25_EXPR@);
    lemma_holds_more(head + filter + "\n         ORDER BY "@ + BM25_EXPR@, filter, " LIMIT ?2"@);
    let probe =
        "SELECT 1 FROM nodes_fts fts JOIN nodes n ON n.id = fts.rowid WHERE nodes_fts MATCH ?1"@;
    lemma_holds_end(probe, filter);
    lemma_holds_more(probe + filter, filter, " LIMIT 1"@);
    match search.stage {
        StageView::Scanning { terms } => {
            let n = terms.len();
            let select = "SELECT "@ + NODE_SELECT_ALIASED@ + " FROM nodes n WHERE "@ + join(
                term_clauses(n),
                " AND "@,
            );
            let ordered = select + filter + " ORDER BY CASE WHEN "@;
            let hits = ordered + join(name_hits(n), " OR "@);
            let cased = hits + " THEN 0 ELSE 1 END"@;
            let tailed = cased + CJK_SCAN_ORDER_TAIL@;
            lemma_holds_end(select, filter);
            lemma_holds_more(select + filter, filter, " ORDER BY CASE WHEN "@);
            lemma_holds_more(ordered, filter, join(name_hits(n), " OR "@));
            lemma_holds_more(hits, filter, " THEN 0 ELSE 1 END"@);
            lemma_holds_more(cased, filter, CJK_SCAN_ORDER_TAIL@);
            lemma_holds_more(tailed, filter, " LIMIT ?"@);
            lemma_holds_more(tailed + " LIMIT ?"@, filter, decimal(n + 1));
        },
        _ => {},
    }
}

/// The first rows, as many as a limit allows.
pub open spec fn cut<T>(rows: Seq<T>, limit: i64) -> Seq<T> {
    if rows.len() <= limit {
        rows
    } else {
        rows.take(limit as int)
    }
}

/// A result with the first of its rows, as many as a limit allows.
pub open spec fn cut_result(result: FtsResultView, limit: i64) -> FtsResultView {
    FtsResultView {
        nodes: cut(result.nodes, limit),
        bm25_scores: cut(result.bm25_scores, limit),
        ..result
    }
}

/// [`cut_result`] of what was found, if anything failed or not.
pub open spec fn cut_found(found: Option<FtsResultView>, limit: i64) -> Option<FtsResultView> {
    match found {
        Some(result) => Some(cut_result(result, limit)),
        None => None,
    }
}

/// Whether a limit decides only how many of the rows there are an index hands out.
pub open spec fn hands_out_first_rows(
    index: Index,
    rows: spec_fn(Seq<char>, Seq<char>) -> Seq<MatchRow>,
    nodes: spec_fn(Seq<char>, Seq<Seq<char>>) -> Seq<NodeResult>,
) -> bool {
    &&& forall|sql: Seq<char>, expression: Seq<char>, limit: i64|
        limit >= 0 ==> #[trigger] (index.rows)(sql, expression, limit) == Some(
            cut(rows(sql, expression), limit),
        )
    &&& forall|sql: Seq<char>, patterns: Seq<Seq<char>>, limit: i64|
        limit >= 0 ==> #[trigger] (index.scan)(sql, patterns, limit) == Some(
            cut(nodes(sql, patterns), limit),
        )
}

proof fn lemma_cut_ranked(rows: Seq<MatchRow>, or_fallback: bool, few: i64, many: i64)
    requires
        0 <= few <= many,
    ensures
        ranked(cut(rows, few), or_fallback) == cut_result(
            ranked(cut(rows, many), or_fallback),
            few,
        ),
{
    assert(row_nodes(cut(rows, few)) =~= cut(row_nodes(cut(rows, many)), few));
    assert(row_scores(cut(rows, few)) =~= cut(row_scores(cut(rows, many)), few));
}

proof fn lemma_cut_scanned(nodes: Seq<NodeResult>, few: i64, many: i64)
    requires
        0 < few <= many,
    ensures
        scanned(cut(nodes, few)) == cut_result(scanned(cut(nodes, many)), few),
{
    assert(scanned(cut(nodes, few)).nodes =~= cut(scanned(cut(nodes, many)).nodes, few));
    assert(scanned(cut(nodes, few)).bm25_scores =~= cut(
        scanned(cut(nodes, many)).bm25_scores,
        few,
    ));
}

/// The limit decides only how many rows are found, not how the search goes: with a smaller limit
/// the same query finds the first rows of what it finds with a greater one, widened or not in the
/// same way. This holds of limits from [`AND_MATCH_FLOOR`] on, of an index that a limit stops
/// from handing out more rows and nothing else.
pub proof fn law_limit_only_cuts(
    index: Index,
    rows: spec_fn(Seq<char>, Seq<char>) -> Seq<MatchRow>,
    nodes: spec_fn(Seq<char>, Seq<Seq<char>>) -> Seq<NodeResult>,
    asked: Asked,
    limit: i64,
)
    requires
        hands_out_first_rows(index, rows, nodes),
        AND_MATCH_FLOOR <= limit <= asked.limit,
    ensures
        searched(index, (Asked { limit, ..asked })) == cut_found(searched(index, asked), limit),
{
    let less = Asked { limit, ..asked };
    let terms = index_terms(index, asked.query);
    let sql = match_sql(asked.exclude_tests);
    let surviving = terms.filter(known_to(index, asked.exclude_tests));
    lemma_cut_ranked(rows(sql, any_of(terms)), terms.len() > 1, limit, asked.limit);
    lemma_cut_ranked(rows(sql, all_of(terms)), false, limit, asked.limit);
    lemma_cut_ranked(rows(sql, all_of(surviving)), true, limit, asked.limit);
    assert(matched_any(index, less, terms) == cut_found(matched_any(index, asked, terms), limit));
    assert(matched_surviving(index, less, surviving) == cut_found(
        matched_surviving(index, asked, surviving),
        limit,
    ));
    assert(matched_less(index, less, terms) == cut_found(
        matched_less(index, asked, terms),
        limit,
    ));
    assert(matched(index, less, terms) == cut_found(matched(index, asked, terms), limit));
    let wanted = scan_terms(asked.query);
    let patterns = wanted.map_values(to_holding_pattern());
    lemma_cut_scanned(
        nodes(scan_sql(wanted.len(), asked.exclude_tests), patterns),
        limit,
        asked.limit,
    );
    assert(rescued(index, less) == cut_found(rescued(index, asked), limit));
}

/// Whether an index hands out as much with one limit as with another, as far as a search decides
/// by it: rows or none, enough of them or not, or a failure.
pub open spec fn answers_alike(index: Index, one: i64, other: i64) -> bool {
    &&& forall|sql: Seq<char>, expression: Seq<char>|
        match ((index.rows)(sql, expression, one), #[trigger] (index.rows)(sql, expression, other)) {
            (Some(a), Some(b)) => {
                &&& a.len() == 0 <==> b.len() == 0
                &&& a.len() >= AND_MATCH_FLOOR <==> b.len() >= AND_MATCH_FLOOR
            },
            (None, None) => true,
            _ => false,
        }
    &&& forall|sql: Seq<char>, patterns: Seq<Seq<char>>|
        match ((index.scan)(sql, patterns, one), #[trigger] (index.scan)(sql, patterns, other)) {
            (Some(a), Some(b)) => a.len() == 0 <==> b.len() == 0,
            (None, None) => true,
            _ => false,
        }
}

/// An index that a limit only stops from handing out more rows answers alike with any two limits
/// from [`AND_MATCH_FLOOR`] on.
pub proof fn law_first_rows_are_alike(
    index: Index,
    rows: spec_fn(Seq<char>, Seq<char>) -> Seq<MatchRow>,
    nodes: spec_fn(Seq<char>, Seq<Seq<char>>) -> Seq<NodeResult>,
    one: i64,
    other: i64,
)
    requires
        hands_out_first_rows(index, rows, nodes),
        AND_MATCH_FLOOR <= one,
        AND_MATCH_FLOOR <= other,
    ensures
        answers_alike(index, one, other),
{
}

/// The limit does not decide how wide the match is: with two limits with which the index answers
/// alike, the same query is widened or not in the same way, gives the same reason, and finds rows
/// with both or with neither; and it fails with both or with neither.
pub proof fn law_limit_does_not_decide_widening(index: Index, asked: Asked, limit: i64)
    requires
        answers_alike(index, asked.limit, limit),
    ensures
        match (searched(index, asked), searched(index, (Asked { limit, ..asked }))) {
            (Some(r), Some(s)) => {
                &&& r.or_fallback == s.or_fallback
                &&& r.cjk_substring_fallback == s.cjk_substring_fallback
                &&& r.empty_reason == s.empty_reason
                &&& r.nodes.len() == 0 <==> s.nodes.len() == 0
            },
            (None, None) => true,
            _ => false,
        },
{
}

/// Whether an index hands out no test symbol for a statement that leaves them out.
pub open spec fn honours_test_filter(index: Index) -> bool {
    &&& forall|expression: Seq<char>, limit: i64|
        (#[trigger] (index.rows)(match_sql(true), expression, limit)) matches Some(rows)
            ==> no_tests(row_nodes(rows))
    &&& forall|count: nat, patterns: Seq<Seq<char>>, limit: i64|
        (#[trigger] (index.scan)(scan_sql(count, true), patterns, limit)) matches Some(nodes)
            ==> no_tests(nodes)
}

/// Whether none of the nodes is a test.
pub open spec fn no_tests(nodes: Seq<NodeResult>) -> bool {
    forall|i: int| 0 <= i < nodes.len() ==> !(#[trigger] nodes[i]).is_test
}

/// A search that leaves out test symbols returns none, on whichever path it found its rows, where
/// the database honours the condition that every statement carries.
pub proof fn law_no_test_comes_back(index: Index, asked: Asked)
    requires
        asked.exclude_tests,
        honours_test_filter(index),
    ensures
        searched(index, asked) matches Some(r) ==> no_tests(r.nodes),
{
}

/// The nodes that are no tests.
pub open spec fn not_a_test() -> spec_fn(NodeResult) -> bool {
    |node: NodeResult| !node.is_test
}

/// The statements that leave out test symbols ask for exactly one thing more than those that do
/// not: one more condition, behind the others and before the order.
pub proof fn law_test_filter_is_one_more_condition(count: nat)
    ensures
        test_filter(true) == " AND n.is_test = 0"@,
        exists|conditions: Seq<char>, order: Seq<char>|
            #![trigger conditions + order]
            scan_sql(count, false) == conditions + (" ORDER BY CASE WHEN "@ + order) && scan_sql(
                count,
                true,
            ) == conditions + test_filter(true) + (" ORDER BY CASE WHEN "@ + order),
        exists|conditions: Seq<char>, order: Seq<char>|
            #![trigger conditions + order]
            match_sql(false) == conditions + ("\n         ORDER BY "@ + order) && match_sql(true)
                == conditions + test_filter(true) + ("\n         ORDER BY "@ + order),
        exists|conditions: Seq<char>|
            probe_sql(false) == #[trigger] (conditions + " LIMIT 1"@) && probe_sql(true)
                == conditions + test_filter(true) + " LIMIT 1"@,
{
    let conditions = "SELECT "@ + NODE_SELECT_ALIASED@ + " FROM nodes n WHERE "@ + join(
        term_clauses(count),
        " AND "@,
    );
    let order = join(name_hits(count), " OR "@) + " THEN 0 ELSE 1 END"@ + CJK_SCAN_ORDER_TAIL@
        + " LIMIT ?"@ + decimal(count + 1);
    let tail = " ORDER BY CASE WHEN "@ + order;
    assert(scan_sql(count, false) =~= conditions + tail);
    assert(scan_sql(count, true) =~= conditions + test_filter(true) + tail);
    assert((conditions + order).len() >= 0);
    let from = " FROM nodes_fts fts JOIN nodes n ON n.id = fts.rowid WHERE nodes_fts MATCH ?1"@;
    let head = "SELECT "@ + NODE_SELECT_ALIASED@ + ", "@ + BM25_EXPR@ + from;
    let ranking = BM25_EXPR@ + " LIMIT ?2"@;
    let ranked_tail = "\n         ORDER BY "@ + ranking;
    assert(match_sql(false) =~= head + ranked_tail);
    assert(match_sql(true) =~= head + test_filter(true) + ranked_tail);
    assert((head + ranking).len() >= 0);
    let probe =
        "SELECT 1 FROM nodes_fts fts JOIN nodes n ON n.id = fts.rowid WHERE nodes_fts MATCH ?1"@;
    assert(probe_sql(false) =~= probe + " LIMIT 1"@);
    assert(probe_sql(true) =~= probe + test_filter(true) + " LIMIT 1"@);
}

/// The substring scan without test symbols finds what the scan with them finds, tests taken out,
/// in the same order; where all of it are tests, it finds nothing and is not called a rescue.
///
/// `matching` are the rows that the conditions of the scan select, in its order. The filter takes
/// the tests out of them, the limit cuts what is left, and the limit is no less than their number.
pub proof fn law_scan_without_tests(index: Index, asked: Asked, matching: Seq<NodeResult>)
    requires
        ({
            let terms = scan_terms(asked.query);
            let patterns = terms.map_values(to_holding_pattern());
            1 <= terms.len() <= CJK_SCAN_MAX_TERMS ==> {
                &&& (index.scan)(scan_sql(terms.len(), false), patterns, asked.limit) == Some(
                    cut(matching, asked.limit),
                )
                &&& (index.scan)(scan_sql(terms.len(), true), patterns, asked.limit) == Some(
                    cut(matching.filter(not_a_test()), asked.limit),
                )
            }
        }),
        matching.len() <= asked.limit,
    ensures
        ({
            let all = rescued(index, (Asked { exclude_tests: false, ..asked }));
            let r = rescued(index, (Asked { exclude_tests: true, ..asked }));
            &&& all is Some
            &&& r is Some
            &&& r->0.nodes == all->0.nodes.filter(not_a_test())
            &&& r->0.cjk_substring_fallback <==> r->0.nodes.len() > 0
            &&& (forall|i: int| 0 <= i < all->0.nodes.len() ==> (#[trigger] all->0.nodes[i]).is_test)
                ==> r->0 == nothing_found(None)
        }),
{
    let all = rescued(index, (Asked { exclude_tests: false, ..asked }))->0;
    let r = rescued(index, (Asked { exclude_tests: true, ..asked }))->0;
    let nothing = Seq::<NodeResult>::empty();
    assert(nothing.filter(not_a_test()) =~= nothing);
    matching.lemma_filter_len(not_a_test());
    if matching.len() == 0 {
        assert(matching =~= nothing);
    }
    assert(r.nodes == all.nodes.filter(not_a_test()));
    if r.nodes.len() > 0 {
        let node = r.nodes[0];
        all.nodes.lemma_filter_pred(not_a_test(), 0);
        assert(all.nodes.filter(not_a_test()).contains(node));
        all.nodes.lemma_filter_contains_rev(not_a_test(), node);
        let i = choose|i: int| 0 <= i < all.nodes.len() && all.nodes[i] == node;
        assert(!all.nodes[i].is_test);
    } else {
        assert(r.nodes =~= nothing);
    }
}

} // verus!
