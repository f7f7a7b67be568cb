//! What a full-text search returns, over everything that it asks of the outside.
//!
//! Nothing here runs. [`searched`] says what the answer to a query is, given an [`Index`];
//! [`crate::search`] is the search that gives that answer one question at a time.

use vstd::prelude::*;

use crate::result::{nothing_found, ranked, scanned, FtsResultView, MatchRow, NodeResult};
use crate::like::to_holding_pattern;
use crate::sql::{all_of, any_of, match_sql, probe_sql, quoted, scan_sql};
use crate::terms::{
    identifier_tokens, match_terms, no_terms_reason, query_words, sanitized, scan_terms,
    user_word_count, MIN_TERM_BYTES,
};
use crate::text::byte_len;

verus! {

/// How many rows must match all the terms for the match to be kept as it is.
///
/// The number does not depend on how many rows the caller fetches.
pub const AND_MATCH_FLOOR: usize = 3;

/// How many distinct terms the substring scan will ask for at once.
///
/// The statement joins one clause per term, and the database refuses an expression that is too
/// deep. A query with more terms finds nothing rather than failing.
pub const CJK_SCAN_MAX_TERMS: usize = 32;

/// Everything that a search depends on besides its query: how identifiers split, what acronyms
/// stand for, and what the database answers. `None` is an answer that failed.
pub struct Index {
    /// The parts of an identifier, between white space.
    pub split: spec_fn(Seq<char>) -> Seq<char>,
    /// What a token stands for as an acronym.
    pub expand: spec_fn(Seq<char>) -> Seq<Seq<char>>,
    /// The rows of a full-text statement for a MATCH expression and a limit.
    pub rows: spec_fn(Seq<char>, Seq<char>, i64) -> Option<Seq<MatchRow>>,
    /// Whether a probing statement can be run at all.
    pub probes: spec_fn(Seq<char>) -> bool,
    /// Whether a probing statement has a row for a MATCH expression.
    pub has_row: spec_fn(Seq<char>, Seq<char>) -> Option<bool>,
    /// The rows of a scanning statement for its patterns and a limit.
    pub scan: spec_fn(Seq<char>, Seq<Seq<char>>, i64) -> Option<Seq<NodeResult>>,
}

/// What a search asks: the query, how many rows it may return, and whether test symbols count.
pub struct Asked {
    pub query: Seq<char>,
    pub limit: i64,
    pub exclude_tests: bool,
}

/// The tokens of a query's words.
pub open spec fn query_tokens(index: Index, query: Seq<char>) -> Seq<Seq<char>> {
    identifier_tokens(query_words(query).map_values(index.split))
}

/// The terms that MATCH is asked for.
pub open spec fn terms_from_tokens(index: Index, tokens: Seq<Seq<char>>) -> Seq<Seq<char>> {
    match_terms(tokens, tokens.map_values(index.expand))
}

/// The rows that match any of the terms. With more than one term this is a widened match.
pub open spec fn matched_any(index: Index, asked: Asked, terms: Seq<Seq<char>>) -> Option<
    FtsResultView,
> {
    match (index.rows)(match_sql(asked.exclude_tests), any_of(terms), asked.limit) {
        Some(rows) => Some(ranked(rows, terms.len() > 1)),
        None => None,
    }
}

/// Whether the index is known to hold a term; a lookup that failed counts as no.
pub open spec fn known_to(index: Index, exclude_tests: bool) -> spec_fn(Seq<char>) -> bool {
    |term: Seq<char>| (index.has_row)(probe_sql(exclude_tests), quoted(term)) == Some(true)
}

/// One typed word in several pieces, which no row holds together: the pieces that the index does
/// not hold at all are dropped, and the rest must still stand together in a row. Any row found
/// so is a widened match.
pub open spec fn matched_relaxed(index: Index, asked: Asked, terms: Seq<Seq<char>>) -> Option<
    FtsResultView,
> {
    let surviving = terms.filter(known_to(index, asked.exclude_tests));
    if !(index.probes)(probe_sql(asked.exclude_tests)) {
        None
    } else if surviving.len() == 0 || surviving.len() == terms.len() {
        Some(nothing_found(None))
    } else {
        matched_surviving(index, asked, surviving)
    }
}

/// The rows that match all of the surviving terms.
pub open spec fn matched_surviving(
    index: Index,
    asked: Asked,
    surviving: Seq<Seq<char>>,
) -> Option<FtsResultView> {
    match (index.rows)(match_sql(asked.exclude_tests), all_of(surviving), asked.limit) {
        Some(rows) => if rows.len() == 0 {
            Some(nothing_found(None))
        } else {
            Some(ranked(rows, true))
        },
        None => None,
    }
}

/// One typed word whose parts no row holds together: only if the index knows the word itself are
/// its parts worth looking for one by one.
pub open spec fn matched_known_word(
    index: Index,
    asked: Asked,
    terms: Seq<Seq<char>>,
    word: Seq<char>,
) -> Option<FtsResultView> {
    if !(index.probes)(probe_sql(asked.exclude_tests)) {
        None
    } else {
        match (index.has_row)(probe_sql(asked.exclude_tests), quoted(word)) {
            Some(true) => matched_any(index, asked, terms),
            Some(false) => Some(nothing_found(None)),
            None => None,
        }
    }
}

/// What a query is made of, on the user's terms.
pub enum QueryShape {
    /// One typed word that punctuation cuts into several terms.
    PiecesOfOneWord,
    /// One typed word that is one term, long enough to be looked up.
    OneWord(Seq<char>),
    /// Words that the user listed.
    ListedWords,
}

/// What a query is made of.
pub open spec fn query_shape(query: Seq<char>) -> QueryShape {
    let words = query_words(query);
    if user_word_count(query) <= 1 && words.len() > 1 {
        QueryShape::PiecesOfOneWord
    } else if user_word_count(query) <= 1 && words.len() == 1 && byte_len(sanitized(words[0]))
        >= MIN_TERM_BYTES {
        QueryShape::OneWord(sanitized(words[0]))
    } else {
        QueryShape::ListedWords
    }
}

/// What is found when no row holds all the terms.
pub open spec fn matched_less(index: Index, asked: Asked, terms: Seq<Seq<char>>) -> Option<
    FtsResultView,
> {
    match query_shape(asked.query) {
        QueryShape::PiecesOfOneWord => matched_relaxed(index, asked, terms),
        QueryShape::OneWord(word) => matched_known_word(index, asked, terms, word),
        QueryShape::ListedWords => matched_any(index, asked, terms),
    }
}

/// What is found for several terms: the rows that hold all of them, when there are enough.
pub open spec fn matched_all(index: Index, asked: Asked, terms: Seq<Seq<char>>) -> Option<
    FtsResultView,
> {
    match (index.rows)(match_sql(asked.exclude_tests), all_of(terms), asked.limit) {
        Some(rows) => if rows.len() >= AND_MATCH_FLOOR {
            Some(ranked(rows, false))
        } else if rows.len() == 0 {
            matched_less(index, asked, terms)
        } else {
            matched_any(index, asked, terms)
        },
        None => None,
    }
}

/// What MATCH finds for the terms of a query.
pub open spec fn matched(index: Index, asked: Asked, terms: Seq<Seq<char>>) -> Option<
    FtsResultView,
> {
    if terms.len() == 0 {
        Some(nothing_found(Some(no_terms_reason(asked.query))))
    } else if terms.len() == 1 {
        matched_any(index, asked, terms)
    } else {
        matched_all(index, asked, terms)
    }
}

/// What the substring scan finds for a query.
pub open spec fn rescued(index: Index, asked: Asked) -> Option<FtsResultView> {
    let terms = scan_terms(asked.query);
    if terms.len() == 0 || terms.len() > CJK_SCAN_MAX_TERMS {
        Some(nothing_found(None))
    } else {
        match (index.scan)(
            scan_sql(terms.len(), asked.exclude_tests),
            terms.map_values(to_holding_pattern()),
            asked.limit,
        ) {
            Some(nodes) => Some(scanned(nodes)),
            None => None,
        }
    }
}

/// Whether MATCH ran and found nothing, so that the substring scan is worth a try.
pub open spec fn worth_rescuing(found: FtsResultView) -> bool {
    found.nodes.len() == 0 && found.empty_reason is None
}

/// What a search returns once MATCH has answered.
pub open spec fn or_rescued(index: Index, asked: Asked, found: Option<FtsResultView>) -> Option<
    FtsResultView,
> {
    match found {
        Some(result) => if worth_rescuing(result) {
            rescued(index, asked)
        } else {
            Some(result)
        },
        None => None,
    }
}

/// What a search returns: `None` when an answer that it needed failed.
pub open spec fn searched(index: Index, asked: Asked) -> Option<FtsResultView> {
    or_rescued(
        index,
        asked,
        matched(index, asked, terms_from_tokens(index, query_tokens(index, asked.query))),
    )
}

} // verus!
