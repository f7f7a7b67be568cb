//! Full-text search, one question to the outside at a time.
//!
//! A search asks ([`Search::request`]) how words split, what tokens stand for and what rows the
//! database has, and goes on with the answer ([`Search::resume`]) until there is nothing left to
//! ask. What it returns in the end is [`crate::index::searched`].

use vstd::prelude::*;

use crate::classes::CharClass;
use crate::index::{
    query_shape, worth_rescuing, Asked, QueryShape, AND_MATCH_FLOOR, CJK_SCAN_MAX_TERMS,
};
use crate::like::{patterns_holding, to_holding_pattern};
use crate::result::{
    find_nothing, nothing_found, rank, ranked, report_scan, scanned, FtsResult, FtsResultView,
    MatchRow, NodeResult,
};
use crate::runs::runs_of;
use crate::sql::{
    all_of, allow_any, any_of, match_sql, match_statement, probe_sql, probe_statement, quote,
    quote_all, quoted, quoting, require_all, scan_sql, scan_statement,
};
use crate::terms::{
    clean_term, collect_match_terms, collect_scan_terms, collect_tokens, copy_strings,
    count_user_words, explain_no_terms, identifier_tokens, law_match_terms_are_clean,
    law_sanitized_is_clean, match_terms, no_terms_reason, query_words, sanitize, scan_terms,
    searchable_words, text_lists, MIN_TERM_BYTES,
};
use crate::text::{byte_len_of, lemma_texts_push, texts};

verus! {

/// A question to the outside.
#[derive(Debug)]
pub enum Request {
    /// How does each word split into the parts of an identifier?
    Split { words: Vec<String> },
    /// What does each token stand for as an acronym?
    Expand { tokens: Vec<String> },
    /// Which rows does this statement have for the MATCH expression `?1` and the limit `?2`?
    Match { sql: String, expression: String, limit: i64 },
    /// For each MATCH expression `?1`: does this statement have a row?
    Probe { sql: String, expressions: Vec<String> },
    /// Which rows does this statement have for the patterns `?1` on, and the limit after them?
    Scan { sql: String, patterns: Vec<String>, limit: i64 },
}

/// An answer to a [`Request`].
#[derive(Debug)]
pub enum Reply {
    /// The split of each word, its parts between white space.
    Splits(Vec<String>),
    /// What each token stands for; empty for a token that is no acronym.
    Expansions(Vec<Vec<String>>),
    /// The rows of a [`Request::Match`], in order.
    Rows(Vec<MatchRow>),
    /// For each expression of a [`Request::Probe`] whether there is a row, or `None` where the
    /// lookup failed.
    Probed(Vec<Option<bool>>),
    /// The rows of a [`Request::Scan`], in order.
    Nodes(Vec<NodeResult>),
    /// The question could not be answered.
    Failed,
}

/// What a request asks.
#[verifier::ext_equal]
pub enum RequestView {
    Split { words: Seq<Seq<char>> },
    Expand { tokens: Seq<Seq<char>> },
    Match { sql: Seq<char>, expression: Seq<char>, limit: i64 },
    Probe { sql: Seq<char>, expressions: Seq<Seq<char>> },
    Scan { sql: Seq<char>, patterns: Seq<Seq<char>>, limit: i64 },
}

/// What a reply answers.
#[verifier::ext_equal]
pub enum ReplyView {
    Splits(Seq<Seq<char>>),
    Expansions(Seq<Seq<Seq<char>>>),
    Rows(Seq<MatchRow>),
    Probed(Seq<Option<bool>>),
    Nodes(Seq<NodeResult>),
    Failed,
}

impl View for Request {
    type V = RequestView;

    open spec fn view(&self) -> RequestView {
        match *self {
            Request::Split { words } => RequestView::Split { words: texts(words@) },
            Request::Expand { tokens } => RequestView::Expand { tokens: texts(tokens@) },
            Request::Match { sql, expression, limit } => RequestView::Match {
                sql: sql@,
                expression: expression@,
                limit,
            },
            Request::Probe { sql, expressions } => RequestView::Probe {
                sql: sql@,
                expressions: texts(expressions@),
            },
            Request::Scan { sql, patterns, limit } => RequestView::Scan {
                sql: sql@,
                patterns: texts(patterns@),
                limit,
            },
        }
    }
}

impl View for Reply {
    type V = ReplyView;

    open spec fn view(&self) -> ReplyView {
        match *self {
            Reply::Splits(splits) => ReplyView::Splits(texts(splits@)),
            Reply::Expansions(lists) => ReplyView::Expansions(text_lists(lists@)),
            Reply::Rows(rows) => ReplyView::Rows(rows@),
            Reply::Probed(found) => ReplyView::Probed(found@),
            Reply::Nodes(nodes) => ReplyView::Nodes(nodes@),
            Reply::Failed => ReplyView::Failed,
        }
    }
}

/// How far a search has come.
#[derive(Debug)]
enum Stage {
    Splitting,
    Expanding { tokens: Vec<String> },
    RequiringAll { terms: Vec<String> },
    ProbingPieces { terms: Vec<String> },
    RequiringSurvivors { terms: Vec<String> },
    ProbingWord { terms: Vec<String>, word: String },
    AllowingAny { terms: Vec<String> },
    Scanning { terms: Vec<String> },
    Done { result: FtsResult },
    Failed,
}

/// How far a search has come.
#[verifier::ext_equal]
pub enum StageView {
    /// Waiting for how the words split.
    Splitting,
    /// Waiting for what the tokens stand for.
    Expanding { tokens: Seq<Seq<char>> },
    /// Waiting for the rows with all the terms.
    RequiringAll { terms: Seq<Seq<char>> },
    /// Waiting for which of the terms the index holds.
    ProbingPieces { terms: Seq<Seq<char>> },
    /// Waiting for the rows with all the terms that the index holds.
    RequiringSurvivors { terms: Seq<Seq<char>> },
    /// Waiting for whether the index holds the word.
    ProbingWord { terms: Seq<Seq<char>>, word: Seq<char> },
    /// Waiting for the rows with any of the terms.
    AllowingAny { terms: Seq<Seq<char>> },
    /// Waiting for the rows of the substring scan.
    Scanning { terms: Seq<Seq<char>> },
    /// The search is over.
    Done { result: FtsResultView },
    /// An answer that the search needed failed.
    Failed,
}

/// A search under way.
#[derive(Debug)]
pub struct Search {
    query: String,
    limit: i64,
    exclude_tests: bool,
    stage: Stage,
}

/// A search under way: what it asks, and how far it has come.
pub struct SearchView {
    pub asked: Asked,
    pub stage: StageView,
}

impl Stage {
    spec fn view(self) -> StageView {
        match self {
            Stage::Splitting => StageView::Splitting,
            Stage::Expanding { tokens } => StageView::Expanding { tokens: texts(tokens@) },
            Stage::RequiringAll { terms } => StageView::RequiringAll { terms: texts(terms@) },
            Stage::ProbingPieces { terms } => StageView::ProbingPieces { terms: texts(terms@) },
            Stage::RequiringSurvivors { terms } => StageView::RequiringSurvivors {
                terms: texts(terms@),
            },
            Stage::ProbingWord { terms, word } => StageView::ProbingWord {
                terms: texts(terms@),
                word: word@,
            },
            Stage::AllowingAny { terms } => StageView::AllowingAny { terms: texts(terms@) },
            Stage::Scanning { terms } => StageView::Scanning { terms: texts(terms@) },
            Stage::Done { result } => StageView::Done { result: result@ },
            Stage::Failed => StageView::Failed,
        }
    }
}

impl View for Search {
    type V = SearchView;

    closed spec fn view(&self) -> SearchView {
        SearchView {
            asked: Asked {
                query: self.query@,
                limit: self.limit,
                exclude_tests: self.exclude_tests,
            },
            stage: self.stage.view(),
        }
    }
}

/// The terms are fit to be quoted, and there are at least so many of them.
pub open spec fn clean_terms(terms: Seq<Seq<char>>, at_least: nat) -> bool {
    &&& terms.len() >= at_least
    &&& forall|i: int| 0 <= i < terms.len() ==> clean_term(#[trigger] terms[i])
}

/// MATCH has answered: the search is over unless the substring scan is worth a try.
pub open spec fn after_match(query: Seq<char>, found: FtsResultView) -> StageView {
    let terms = scan_terms(query);
    if !worth_rescuing(found) {
        StageView::Done { result: found }
    } else if terms.len() == 0 || terms.len() > CJK_SCAN_MAX_TERMS {
        StageView::Done { result: nothing_found(None) }
    } else {
        StageView::Scanning { terms }
    }
}

/// The terms are known: one is looked for at once, of several all are required first.
pub open spec fn after_terms(query: Seq<char>, terms: Seq<Seq<char>>) -> StageView {
    if terms.len() == 0 {
        after_match(query, nothing_found(Some(no_terms_reason(query))))
    } else if terms.len() == 1 {
        StageView::AllowingAny { terms }
    } else {
        StageView::RequiringAll { terms }
    }
}

/// The rows with all the terms are known.
pub open spec fn after_all(
    query: Seq<char>,
    terms: Seq<Seq<char>>,
    rows: Seq<MatchRow>,
) -> StageView {
    if rows.len() >= AND_MATCH_FLOOR {
        after_match(query, ranked(rows, false))
    } else if rows.len() > 0 {
        StageView::AllowingAny { terms }
    } else {
        match query_shape(query) {
            QueryShape::PiecesOfOneWord => StageView::ProbingPieces { terms },
            QueryShape::OneWord(word) => StageView::ProbingWord { terms, word },
            QueryShape::ListedWords => StageView::AllowingAny { terms },
        }
    }
}

/// It is known which terms the index holds.
pub open spec fn after_pieces(
    query: Seq<char>,
    terms: Seq<Seq<char>>,
    found: Seq<Option<bool>>,
) -> StageView {
    let surviving = survivors(terms, found);
    if surviving.len() == 0 || surviving.len() == terms.len() {
        after_match(query, nothing_found(None))
    } else {
        StageView::RequiringSurvivors { terms: surviving }
    }
}

/// The rows with all the surviving terms are known.
pub open spec fn after_survivors(query: Seq<char>, rows: Seq<MatchRow>) -> StageView {
    after_match(
        query,
        if rows.len() == 0 {
            nothing_found(None)
        } else {
            ranked(rows, true)
        },
    )
}

/// It is known whether the index holds the word.
pub open spec fn after_word(
    query: Seq<char>,
    terms: Seq<Seq<char>>,
    found: Seq<Option<bool>>,
) -> StageView {
    if found.len() == 1 && found[0] == Some(true) {
        StageView::AllowingAny { terms }
    } else if found.len() == 1 && found[0] == Some(false) {
        after_match(query, nothing_found(None))
    } else {
        StageView::Failed
    }
}

impl SearchView {
    /// What holds of every search under way.
    pub open spec fn well_formed(self) -> bool {
        match self.stage {
            StageView::Splitting => true,
            StageView::Expanding { .. } => true,
            StageView::RequiringAll { terms } => clean_terms(terms, 2),
            StageView::ProbingPieces { terms } => clean_terms(terms, 2),
            StageView::RequiringSurvivors { terms } => clean_terms(terms, 1),
            StageView::ProbingWord { terms, word } => clean_terms(terms, 2) && clean_term(word),
            StageView::AllowingAny { terms } => clean_terms(terms, 1),
            StageView::Scanning { terms } => terms == scan_terms(self.asked.query) && 1
                <= terms.len() <= CJK_SCAN_MAX_TERMS,
            StageView::Done { .. } => true,
            StageView::Failed => true,
        }
    }

    /// The same search at another stage.
    pub open spec fn at(self, stage: StageView) -> SearchView {
        SearchView { asked: self.asked, stage }
    }

    /// A search that has not asked anything yet.
    pub open spec fn start(asked: Asked) -> SearchView {
        SearchView { asked, stage: StageView::Splitting }
    }

    /// The question that a search waits for the answer to; `None` when it is over.
    pub open spec fn pending(self) -> Option<RequestView> {
        let rows = match_sql(self.asked.exclude_tests);
        let probe = probe_sql(self.asked.exclude_tests);
        let limit = self.asked.limit;
        match self.stage {
            StageView::Splitting => Some(
                RequestView::Split { words: query_words(self.asked.query) },
            ),
            StageView::Expanding { tokens } => Some(RequestView::Expand { tokens }),
            StageView::RequiringAll { terms } => Some(
                RequestView::Match { sql: rows, expression: all_of(terms), limit },
            ),
            StageView::ProbingPieces { terms } => Some(
                RequestView::Probe { sql: probe, expressions: terms.map_values(quoting()) },
            ),
            StageView::RequiringSurvivors { terms } => Some(
                RequestView::Match { sql: rows, expression: all_of(terms), limit },
            ),
            StageView::ProbingWord { word, .. } => Some(
                RequestView::Probe { sql: probe, expressions: seq![quoted(word)] },
            ),
            StageView::AllowingAny { terms } => Some(
                RequestView::Match { sql: rows, expression: any_of(terms), limit },
            ),
            StageView::Scanning { terms } => Some(
                RequestView::Scan {
                    sql: scan_sql(terms.len(), self.asked.exclude_tests),
                    patterns: terms.map_values(to_holding_pattern()),
                    limit,
                },
            ),
            StageView::Done { .. } => None,
            StageView::Failed => None,
        }
    }

    /// How a search goes on with an answer. An answer of another kind than what was asked for,
    /// or for another number of things, fails the search.
    pub open spec fn next(self, reply: ReplyView) -> SearchView {
        let query = self.asked.query;
        self.at(
            match (self.stage, reply) {
                (StageView::Splitting, ReplyView::Splits(splits)) => if splits.len()
                    == query_words(query).len() {
                    StageView::Expanding { tokens: identifier_tokens(splits) }
                } else {
                    StageView::Failed
                },
                (StageView::Expanding { tokens }, ReplyView::Expansions(lists)) => if lists.len()
                    == tokens.len() {
                    after_terms(query, match_terms(tokens, lists))
                } else {
                    StageView::Failed
                },
                (StageView::RequiringAll { terms }, ReplyView::Rows(rows)) => after_all(
                    query,
                    terms,
                    rows,
                ),
                (StageView::ProbingPieces { terms }, ReplyView::Probed(found)) => if found.len()
                    == terms.len() {
                    after_pieces(query, terms, found)
                } else {
                    StageView::Failed
                },
                (StageView::RequiringSurvivors { .. }, ReplyView::Rows(rows)) => after_survivors(
                    query,
                    rows,
                ),
                (StageView::ProbingWord { terms, .. }, ReplyView::Probed(found)) => after_word(
                    query,
                    terms,
                    found,
                ),
                (StageView::AllowingAny { terms }, ReplyView::Rows(rows)) => after_match(
                    query,
                    ranked(rows, terms.len() > 1),
                ),
                (StageView::Scanning { .. }, ReplyView::Nodes(nodes)) => StageView::Done {
                    result: scanned(nodes),
                },
                (StageView::Done { result }, _) => StageView::Done { result },
                _ => StageView::Failed,
            },
        )
    }
}

/// The terms for which a row was found, in order.
pub open spec fn survivors(terms: Seq<Seq<char>>, found: Seq<Option<bool>>) -> Seq<Seq<char>>
    decreases terms.len(),
{
    if terms.len() == 0 {
        Seq::empty()
    } else {
        let before = survivors(terms.drop_last(), found);
        if found[terms.len() - 1] == Some(true) {
            before.push(terms.last())
        } else {
            before
        }
    }
}

/// The terms for which a row was found.
fn keep_survivors(terms: Vec<String>, found: &Vec<Option<bool>>) -> (r: Vec<String>)
    requires
        found@.len() == terms@.len(),
    ensures
        texts(r@) == survivors(texts(terms@), found@),
{
    let ghost all = texts(terms@);
    let mut kept: Vec<String> = Vec::new();
    let mut i: usize = 0;
    assert(texts(kept@) =~= survivors(all.take(0), found@));
    while i < terms.len()
        invariant
            found@.len() == terms@.len(),
            all == texts(terms@),
            i <= terms@.len(),
            texts(kept@) == survivors(all.take(i as int), found@),
        decreases terms@.len() - i,
    {
        assert(all.take(i + 1).drop_last() =~= all.take(i as int));
        if matches!(found[i], Some(true)) {
            let term = terms[i].clone();
            proof {
                lemma_texts_push(kept@, term);
            }
            kept.push(term);
        }
        i += 1;
    }
    assert(all.take(all.len() as int) =~= all);
    kept
}

/// MATCH has answered.
fn settle(query: &str, found: FtsResult) -> (r: Stage)
    ensures
        r.view() == after_match(query@, found@),
{
    if found.nodes.len() > 0 || found.empty_reason.is_some() {
        return Stage::Done { result: found };
    }
    let terms = collect_scan_terms(query);
    if terms.len() == 0 || terms.len() > CJK_SCAN_MAX_TERMS {
        Stage::Done { result: find_nothing(None) }
    } else {
        Stage::Scanning { terms }
    }
}

/// The terms are known.
fn start_matching(query: &str, terms: Vec<String>) -> (r: Stage)
    ensures
        r.view() == after_terms(query@, texts(terms@)),
{
    if terms.len() == 0 {
        let raw = runs_of(query, CharClass::Term);
        let words = searchable_words(&raw);
        settle(query, find_nothing(Some(explain_no_terms(&raw, &words))))
    } else if terms.len() == 1 {
        Stage::AllowingAny { terms }
    } else {
        Stage::RequiringAll { terms }
    }
}

/// The rows with all the terms are known.
fn weigh_all(query: &str, terms: Vec<String>, rows: Vec<MatchRow>) -> (r: Stage)
    ensures
        r.view() == after_all(query@, texts(terms@), rows@),
{
    if rows.len() >= AND_MATCH_FLOOR {
        return settle(query, rank(rows, false));
    }
    if rows.len() > 0 {
        return Stage::AllowingAny { terms };
    }
    let words = searchable_words(&runs_of(query, CharClass::Term));
    if count_user_words(query) > 1 {
        return Stage::AllowingAny { terms };
    }
    if words.len() > 1 {
        return Stage::ProbingPieces { terms };
    }
    if words.len() == 1 {
        let word = sanitize(words[0].as_str());
        if byte_len_of(word.as_str()) >= MIN_TERM_BYTES {
            return Stage::ProbingWord { terms, word };
        }
    }
    Stage::AllowingAny { terms }
}

/// It is known which terms the index holds.
fn weigh_pieces(query: &str, terms: Vec<String>, found: Vec<Option<bool>>) -> (r: Stage)
    requires
        found@.len() == terms@.len(),
    ensures
        r.view() == after_pieces(query@, texts(terms@), found@),
{
    let count = terms.len();
    let surviving = keep_survivors(terms, &found);
    if surviving.len() == 0 || surviving.len() == count {
        settle(query, find_nothing(None))
    } else {
        Stage::RequiringSurvivors { terms: surviving }
    }
}

/// The rows with all the surviving terms are known.
fn weigh_survivors(query: &str, rows: Vec<MatchRow>) -> (r: Stage)
    ensures
        r.view() == after_survivors(query@, rows@),
{
    if rows.len() == 0 {
        settle(query, find_nothing(None))
    } else {
        settle(query, rank(rows, true))
    }
}

/// It is known whether the index holds the word.
fn weigh_word(query: &str, terms: Vec<String>, found: Vec<Option<bool>>) -> (r: Stage)
    ensures
        r.view() == after_word(query@, texts(terms@), found@),
{
    if found.len() != 1 {
        return Stage::Failed;
    }
    match found[0] {
        Some(true) => Stage::AllowingAny { terms },
        Some(false) => settle(query, find_nothing(None)),
        None => Stage::Failed,
    }
}

/// How a search goes on with an answer.
fn advance(query: &str, stage: Stage, reply: Reply) -> (r: Stage)
    ensures
        forall|asked: Asked|
            asked.query == query@ ==> #[trigger] (SearchView { asked, stage: stage.view() }).next(
                reply@,
            ).stage == r.view(),
{
    match (stage, reply) {
        (Stage::Splitting, Reply::Splits(splits)) => {
            let words = searchable_words(&runs_of(query, CharClass::Term));
            if splits.len() == words.len() {
                Stage::Expanding { tokens: collect_tokens(&splits) }
            } else {
                Stage::Failed
            }
        },
        (Stage::Expanding { tokens }, Reply::Expansions(lists)) => {
            if lists.len() == tokens.len() {
                start_matching(query, collect_match_terms(tokens, lists))
            } else {
                Stage::Failed
            }
        },
        (Stage::RequiringAll { terms }, Reply::Rows(rows)) => weigh_all(query, terms, rows),
        (Stage::ProbingPieces { terms }, Reply::Probed(found)) => {
            if found.len() == terms.len() {
                weigh_pieces(query, terms, found)
            } else {
                Stage::Failed
            }
        },
        (Stage::RequiringSurvivors { .. }, Reply::Rows(rows)) => weigh_survivors(query, rows),
        (Stage::ProbingWord { terms, .. }, Reply::Probed(found)) => weigh_word(query, terms, found),
        (Stage::AllowingAny { terms }, Reply::Rows(rows)) => {
            let widened = terms.len() > 1;
            settle(query, rank(rows, widened))
        },
        (Stage::Scanning { .. }, Reply::Nodes(nodes)) => Stage::Done {
            result: report_scan(nodes),
        },
        (Stage::Done { result }, _) => Stage::Done { result },
        _ => Stage::Failed,
    }
}

/// What is asked, if anything.
pub open spec fn request_view(request: Option<Request>) -> Option<RequestView> {
    match request {
        Some(request) => Some(request@),
        None => None,
    }
}

impl Search {
    #[verifier::type_invariant]
    spec fn invariant_of(self) -> bool {
        self.view().well_formed()
    }

    fn new(query: &str, limit: i64, exclude_tests: bool) -> (r: Search)
        ensures
            r@ == SearchView::start(Asked { query: query@, limit, exclude_tests }),
    {
        Search { query: query.to_string(), limit, exclude_tests, stage: Stage::Splitting }
    }

    /// The question that this search waits for the answer to; `None` when it is over.
    pub fn request(&self) -> (r: Option<Request>)
        ensures
            request_view(r) == self@.pending(),
    {
        proof {
            use_type_invariant(self);
        }
        match &self.stage {
            Stage::Splitting => Some(
                Request::Split {
                    words: searchable_words(&runs_of(self.query.as_str(), CharClass::Term)),
                },
            ),
            Stage::Expanding { tokens } => Some(Request::Expand { tokens: copy_strings(tokens) }),
            Stage::RequiringAll { terms } => Some(self.match_request(require_all(terms))),
            Stage::ProbingPieces { terms } => Some(self.probe_request(quote_all(terms))),
            Stage::RequiringSurvivors { terms } => Some(self.match_request(require_all(terms))),
            Stage::ProbingWord { word, .. } => {
                let mut expressions: Vec<String> = Vec::new();
                let expression = quote(word.as_str());
                proof {
                    lemma_texts_push(expressions@, expression);
                }
                expressions.push(expression);
                assert(texts(expressions@) =~= seq![quoted(word@)]);
                Some(self.probe_request(expressions))
            },
            Stage::AllowingAny { terms } => Some(self.match_request(allow_any(terms))),
            Stage::Scanning { terms } => Some(
                Request::Scan {
                    sql: scan_statement(terms.len(), self.exclude_tests),
                    patterns: patterns_holding(terms),
                    limit: self.limit,
                },
            ),
            Stage::Done { .. } => None,
            Stage::Failed => None,
        }
    }

    fn match_request(&self, expression: String) -> (r: Request)
        ensures
            r@ == (RequestView::Match {
                sql: match_sql(self@.asked.exclude_tests),
                expression: expression@,
                limit: self@.asked.limit,
            }),
    {
        Request::Match { sql: match_statement(self.exclude_tests), expression, limit: self.limit }
    }

    fn probe_request(&self, expressions: Vec<String>) -> (r: Request)
        ensures
            r@ == (RequestView::Probe {
                sql: probe_sql(self@.asked.exclude_tests),
                expressions: texts(expressions@),
            }),
    {
        Request::Probe { sql: probe_statement(self.exclude_tests), expressions }
    }

    /// Goes on with the answer to the pending question.
    ///
    /// An answer of another kind than what was asked for, or for another number of things, fails
    /// the search. A search that is over stays as it is.
    pub fn resume(self, reply: Reply) -> (r: Search)
        ensures
            r@ == self@.next(reply@),
    {
        proof {
            use_type_invariant(&self);
            law_every_step_is_well_formed(self@, reply@);
        }
        let Search { query, limit, exclude_tests, stage } = self;
        let stage = advance(query.as_str(), stage, reply);
        Search { query, limit, exclude_tests, stage }
    }

    /// What was found, once the search is over; `None` while it is not, and when it failed.
    pub fn into_result(self) -> (r: Option<FtsResult>)
        ensures
            match r {
                Some(result) => self@.stage == (StageView::Done { result: result@ }),
                None => !(self@.stage is Done),
            },
    {
        let Search { stage, .. } = self;
        match stage {
            Stage::Done { result } => Some(result),
            _ => None,
        }
    }
}

/// Starts a full-text search among the symbols that are not tests, for at most `limit` rows.
pub fn fts5_search(query: &str, limit: i64) -> (r: Search)
    ensures
        r@ == SearchView::start(Asked { query: query@, limit, exclude_tests: true }),
{
    Search::new(query, limit, true)
}

/// Starts a full-text search that takes in test symbols, for callers who want them.
pub fn fts5_search_with_tests(query: &str, limit: i64) -> (r: Search)
    ensures
        r@ == SearchView::start(Asked { query: query@, limit, exclude_tests: false }),
{
    Search::new(query, limit, false)
}

proof fn lemma_survivors(terms: Seq<Seq<char>>, found: Seq<Option<bool>>)
    requires
        found.len() >= terms.len(),
    ensures
        survivors(terms, found).len() <= terms.len(),
        forall|i: int|
            0 <= i < survivors(terms, found).len() ==> terms.contains(
                #[trigger] survivors(terms, found)[i],
            ),
    decreases terms.len(),
{
    if terms.len() > 0 {
        let init = terms.drop_last();
        lemma_survivors(init, found);
        let kept = survivors(terms, found);
        assert forall|i: int| 0 <= i < kept.len() implies terms.contains(#[trigger] kept[i]) by {
            if i < survivors(init, found).len() {
                let term = survivors(init, found)[i];
                assert(init.contains(term));
                let k = choose|k: int| 0 <= k < init.len() && init[k] == term;
                assert(terms[k] == term);
            } else {
                assert(terms[terms.len() - 1] == kept[i]);
            }
        }
    }
}

/// Whatever the answers are, a search stays well-formed: the terms it looks for are clean, and
/// the substring scan is asked for at least one and at most [`CJK_SCAN_MAX_TERMS`] terms.
pub proof fn law_every_step_is_well_formed(search: SearchView, reply: ReplyView)
    requires
        search.well_formed(),
    ensures
        search.next(reply).well_formed(),
{
    match (search.stage, reply) {
        (StageView::Expanding { tokens }, ReplyView::Expansions(lists)) => {
            law_match_terms_are_clean(tokens, lists);
        },
        (StageView::RequiringAll { .. }, ReplyView::Rows(_)) => {
            let words = query_words(search.asked.query);
            if words.len() == 1 {
                law_sanitized_is_clean(words[0]);
            }
        },
        (StageView::ProbingPieces { terms }, ReplyView::Probed(found)) => {
            if found.len() == terms.len() {
                lemma_survivors(terms, found);
                let kept = survivors(terms, found);
                assert forall|i: int| 0 <= i < kept.len() implies clean_term(
                    #[trigger] kept[i],
                ) by {
                    assert(terms.contains(kept[i]));
                    let k = choose|k: int| 0 <= k < terms.len() && terms[k] == kept[i];
                    assert(clean_term(terms[k]));
                }
            }
        },
        _ => {},
    }
}

} // verus!
