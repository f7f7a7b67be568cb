//! A search run to its end against an index that does not change meanwhile.

use vstd::prelude::*;

use crate::index::{
    known_to, matched, matched_all, matched_any, matched_known_word, matched_relaxed,
    matched_surviving, or_rescued, rescued, searched, terms_from_tokens, Asked, Index,
};
use crate::result::FtsResultView;
use crate::search::{survivors, ReplyView, RequestView, SearchView, StageView};
use crate::sql::{probe_sql, quoted, quoting};

verus! {

/// How a probe is answered for each expression.
pub open spec fn probing(index: Index, sql: Seq<char>) -> spec_fn(Seq<char>) -> Option<bool> {
    |expression: Seq<char>| (index.has_row)(sql, expression)
}

/// How an index answers a request.
pub open spec fn answer(index: Index, request: RequestView) -> ReplyView {
    match request {
        RequestView::Split { words } => ReplyView::Splits(words.map_values(index.split)),
        RequestView::Expand { tokens } => ReplyView::Expansions(tokens.map_values(index.expand)),
        RequestView::Match { sql, expression, limit } => match (index.rows)(
            sql,
            expression,
            limit,
        ) {
            Some(rows) => ReplyView::Rows(rows),
            None => ReplyView::Failed,
        },
        RequestView::Probe { sql, expressions } => if (index.probes)(sql) {
            ReplyView::Probed(expressions.map_values(probing(index, sql)))
        } else {
            ReplyView::Failed
        },
        RequestView::Scan { sql, patterns, limit } => match (index.scan)(sql, patterns, limit) {
            Some(nodes) => ReplyView::Nodes(nodes),
            None => ReplyView::Failed,
        },
    }
}

impl SearchView {
    /// The most questions that a search can still ask.
    pub open spec fn questions_left(self) -> nat {
        match self.stage {
            StageView::Splitting => 6,
            StageView::Expanding { .. } => 5,
            StageView::RequiringAll { .. } => 4,
            StageView::ProbingPieces { .. } => 3,
            StageView::ProbingWord { .. } => 3,
            StageView::RequiringSurvivors { .. } => 2,
            StageView::AllowingAny { .. } => 2,
            StageView::Scanning { .. } => 1,
            StageView::Done { .. } => 0,
            StageView::Failed => 0,
        }
    }

    /// What a search will have found in the end.
    pub open spec fn promised(self, index: Index) -> Option<FtsResultView> {
        let asked = self.asked;
        match self.stage {
            StageView::Splitting => searched(index, asked),
            StageView::Expanding { tokens } => or_rescued(
                index,
                asked,
                matched(index, asked, terms_from_tokens(index, tokens)),
            ),
            StageView::RequiringAll { terms } => or_rescued(
                index,
                asked,
                matched_all(index, asked, terms),
            ),
            StageView::ProbingPieces { terms } => or_rescued(
                index,
                asked,
                matched_relaxed(index, asked, terms),
            ),
            StageView::RequiringSurvivors { terms } => or_rescued(
                index,
                asked,
                matched_surviving(index, asked, terms),
            ),
            StageView::ProbingWord { terms, word } => or_rescued(
                index,
                asked,
                matched_known_word(index, asked, terms, word),
            ),
            StageView::AllowingAny { terms } => or_rescued(
                index,
                asked,
                matched_any(index, asked, terms),
            ),
            StageView::Scanning { .. } => rescued(index, asked),
            StageView::Done { result } => Some(result),
            StageView::Failed => None,
        }
    }

    /// A search that is over, with what it found.
    pub open spec fn over(asked: Asked, found: Option<FtsResultView>) -> SearchView {
        SearchView {
            asked,
            stage: match found {
                Some(result) => StageView::Done { result },
                None => StageView::Failed,
            },
        }
    }
}

/// A search after all its questions have been answered.
pub open spec fn outcome(index: Index, search: SearchView) -> SearchView
    decreases search.questions_left(),
{
    match search.pending() {
        Some(request) => outcome(index, search.next(answer(index, request))),
        None => search,
    }
}

/// Every answer brings a search nearer to its end, whatever it is: a search asks at most six
/// questions. One that is over does not change any more.
pub proof fn law_every_answer_is_progress(search: SearchView, reply: ReplyView)
    ensures
        search.pending() is Some ==> search.next(reply).questions_left() < search.questions_left(),
        search.pending() is None ==> search.next(reply) == search,
        search.pending() is None <==> search.questions_left() == 0,
        SearchView::start(search.asked).questions_left() == 6,
        search.next(reply).asked == search.asked,
{
}

proof fn lemma_survivors_are_known(
    index: Index,
    exclude_tests: bool,
    terms: Seq<Seq<char>>,
    found: Seq<Option<bool>>,
)
    requires
        found.len() >= terms.len(),
        forall|i: int|
            0 <= i < terms.len() ==> #[trigger] found[i] == (index.has_row)(
                probe_sql(exclude_tests),
                quoted(terms[i]),
            ),
    ensures
        survivors(terms, found) == terms.filter(known_to(index, exclude_tests)),
    decreases terms.len(),
{
    let known = known_to(index, exclude_tests);
    if terms.len() == 0 {
        assert(terms.filter(known) =~= Seq::<Seq<char>>::empty());
    } else {
        let init = terms.drop_last();
        lemma_survivors_are_known(index, exclude_tests, init, found);
        assert(init.push(terms.last()) =~= terms);
        init.lemma_filter_push(terms.last(), known);
        assert(found[terms.len() - 1] == (index.has_row)(
            probe_sql(exclude_tests),
            quoted(terms[terms.len() - 1]),
        ));
    }
}

/// An answer of the index does not change what a search will have found in the end.
pub proof fn law_answers_keep_the_promise(index: Index, search: SearchView)
    requires
        search.well_formed(),
        search.pending() is Some,
    ensures
        search.next(answer(index, search.pending()->0)).promised(index) == search.promised(index),
{
    let reply = answer(index, search.pending()->0);
    match search.stage {
        StageView::ProbingPieces { terms } => {
            let sql = probe_sql(search.asked.exclude_tests);
            if (index.probes)(sql) {
                let found = terms.map_values(quoting()).map_values(probing(index, sql));
                lemma_survivors_are_known(index, search.asked.exclude_tests, terms, found);
            }
        },
        StageView::ProbingWord { word, .. } => {
            let sql = probe_sql(search.asked.exclude_tests);
            let found = seq![quoted(word)].map_values(probing(index, sql));
            assert(found.len() == 1 && found[0] == (index.has_row)(sql, quoted(word)));
        },
        _ => {},
    }
}

proof fn lemma_outcome_is_promised(index: Index, search: SearchView)
    requires
        search.well_formed(),
    ensures
        outcome(index, search) == SearchView::over(search.asked, search.promised(index)),
    decreases search.questions_left(),
{
    match search.pending() {
        Some(request) => {
            let reply = answer(index, request);
            crate::search::law_every_step_is_well_formed(search, reply);
            law_answers_keep_the_promise(index, search);
            lemma_outcome_is_promised(index, search.next(reply));
        },
        None => {},
    }
}

/// A search whose questions an index answers finds exactly what [`searched`] says of that index,
/// and fails exactly where [`searched`] says that an answer it needs failed.
pub proof fn law_search_finds_what_is_searched(index: Index, asked: Asked)
    ensures
        outcome(index, SearchView::start(asked)) == SearchView::over(asked, searched(index, asked)),
{
    lemma_outcome_is_promised(index, SearchView::start(asked));
}

} // verus!
