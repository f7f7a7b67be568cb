//! Fuzzy name resolution: names that hold what was typed, else names a few edits away.
//!
//! Like a full-text search, a name search asks one question at a time
//! ([`NameSearch::request`]) and goes on with the answer ([`NameSearch::resume`]). What it
//! returns in the end is [`resolved`].

use vstd::prelude::*;

use crate::guarantees::holds;
use crate::like::{
    escape_like, escaped_like, holding_pattern, law_holding_pattern_is_literal,
    law_prefix_pattern_is_literal, like_items, like_matches, pattern_holding, stands_at,
};
use crate::sql::{FUZZY_EDIT_DISTANCE_SQL, FUZZY_NAME_SQL};
use crate::suggestions::{
    allowed_edits, edits_away, law_suggestions_are_the_nearest, suggest, suggestions,
    NameCandidate, MAX_SUGGESTIONS,
};
use crate::text::texts;

verus! {

/// A question of a name search.
#[derive(Debug)]
pub enum NameRequest {
    /// What are the tokens of this identifier, without the identifier itself?
    Tokens { name: String },
    /// Which candidates does this statement have for the parameters `?1` on?
    Names { sql: &'static str, parameters: Vec<String> },
    /// Which candidates does this statement have?
    Pool { sql: &'static str },
}

/// An answer to a [`NameRequest`].
#[derive(Debug)]
pub enum NameReply {
    /// The tokens of the identifier.
    Tokens(String),
    /// The candidates, in order.
    Candidates(Vec<NameCandidate>),
    /// The question could not be answered.
    Failed,
}

/// What a request asks.
#[verifier::ext_equal]
pub enum NameRequestView {
    Tokens { name: Seq<char> },
    Names { sql: Seq<char>, parameters: Seq<Seq<char>> },
    Pool { sql: Seq<char> },
}

/// What a reply answers.
#[verifier::ext_equal]
pub enum NameReplyView {
    Tokens(Seq<char>),
    Candidates(Seq<NameCandidate>),
    Failed,
}

impl View for NameRequest {
    type V = NameRequestView;

    open spec fn view(&self) -> NameRequestView {
        match *self {
            NameRequest::Tokens { name } => NameRequestView::Tokens { name: name@ },
            NameRequest::Names { sql, parameters } => NameRequestView::Names {
                sql: sql@,
                parameters: texts(parameters@),
            },
            NameRequest::Pool { sql } => NameRequestView::Pool { sql: sql@ },
        }
    }
}

impl View for NameReply {
    type V = NameReplyView;

    open spec fn view(&self) -> NameReplyView {
        match *self {
            NameReply::Tokens(tokens) => NameReplyView::Tokens(tokens@),
            NameReply::Candidates(found) => NameReplyView::Candidates(found@),
            NameReply::Failed => NameReplyView::Failed,
        }
    }
}

#[derive(Debug)]
enum NameStage {
    Splitting,
    Matching { tokens: String },
    Correcting,
    Done { found: Vec<NameCandidate> },
    Failed,
}

/// How far a name search has come.
#[verifier::ext_equal]
pub enum NameStageView {
    /// Waiting for the tokens of what was typed.
    Splitting,
    /// Waiting for the names that hold it, or its tokens.
    Matching { tokens: Seq<char> },
    /// Waiting for the pool of names to correct it from.
    Correcting,
    /// The search is over.
    Done { found: Seq<NameCandidate> },
    /// An answer that the search needed failed.
    Failed,
}

/// A name search under way.
#[derive(Debug)]
pub struct NameSearch {
    typed: String,
    stage: NameStage,
}

/// A name search under way: what was typed, and how far it has come.
#[verifier::ext_equal]
pub struct NameSearchView {
    pub typed: Seq<char>,
    pub stage: NameStageView,
}

impl NameStage {
    spec fn view(self) -> NameStageView {
        match self {
            NameStage::Splitting => NameStageView::Splitting,
            NameStage::Matching { tokens } => NameStageView::Matching { tokens: tokens@ },
            NameStage::Correcting => NameStageView::Correcting,
            NameStage::Done { found } => NameStageView::Done { found: found@ },
            NameStage::Failed => NameStageView::Failed,
        }
    }
}

impl View for NameSearch {
    type V = NameSearchView;

    closed spec fn view(&self) -> NameSearchView {
        NameSearchView { typed: self.typed@, stage: self.stage.view() }
    }
}

/// The parameters of the name pass: the pattern for the name, what was typed, the pattern for
/// the tokens, and the escaped text that a prefix hit begins with.
pub open spec fn name_parameters(typed: Seq<char>, tokens: Seq<char>) -> Seq<Seq<char>> {
    seq![holding_pattern(typed), typed, holding_pattern(tokens), escaped_like(typed)]
}

/// Everything that a name search depends on besides what was typed. `None` is an answer that
/// failed.
pub struct NameIndex {
    /// The tokens of an identifier.
    pub tokens: spec_fn(Seq<char>) -> Seq<char>,
    /// The candidates of a statement for its parameters.
    pub names: spec_fn(Seq<char>, Seq<Seq<char>>) -> Option<Seq<NameCandidate>>,
    /// The candidates of a statement without parameters.
    pub pool: spec_fn(Seq<char>) -> Option<Seq<NameCandidate>>,
}

/// What is suggested for a name that no name holds.
pub open spec fn corrected(index: NameIndex, typed: Seq<char>) -> Option<Seq<NameCandidate>> {
    match (index.pool)(FUZZY_EDIT_DISTANCE_SQL@) {
        Some(pool) => Some(suggestions(typed, pool)),
        None => None,
    }
}

/// What the name pass finds, or what is suggested where it finds nothing.
pub open spec fn named(index: NameIndex, typed: Seq<char>, tokens: Seq<char>) -> Option<
    Seq<NameCandidate>,
> {
    match (index.names)(FUZZY_NAME_SQL@, name_parameters(typed, tokens)) {
        Some(found) => if found.len() > 0 {
            Some(found)
        } else {
            corrected(index, typed)
        },
        None => None,
    }
}

/// What a name search returns: `None` when an answer that it needed failed.
pub open spec fn resolved(index: NameIndex, typed: Seq<char>) -> Option<Seq<NameCandidate>> {
    named(index, typed, (index.tokens)(typed))
}

impl NameSearchView {
    /// A name search that has not asked anything yet.
    pub open spec fn start(typed: Seq<char>) -> NameSearchView {
        NameSearchView { typed, stage: NameStageView::Splitting }
    }

    /// The question that a name search waits for the answer to; `None` when it is over.
    pub open spec fn pending(self) -> Option<NameRequestView> {
        match self.stage {
            NameStageView::Splitting => Some(NameRequestView::Tokens { name: self.typed }),
            NameStageView::Matching { tokens } => Some(
                NameRequestView::Names {
                    sql: FUZZY_NAME_SQL@,
                    parameters: name_parameters(self.typed, tokens),
                },
            ),
            NameStageView::Correcting => Some(
                NameRequestView::Pool { sql: FUZZY_EDIT_DISTANCE_SQL@ },
            ),
            NameStageView::Done { .. } => None,
            NameStageView::Failed => None,
        }
    }

    /// How a name search goes on with an answer. An answer of another kind than what was asked
    /// for fails it.
    pub open spec fn next(self, reply: NameReplyView) -> NameSearchView {
        NameSearchView {
            typed: self.typed,
            stage: match (self.stage, reply) {
                (NameStageView::Splitting, NameReplyView::Tokens(tokens)) => {
                    NameStageView::Matching { tokens }
                },
                (NameStageView::Matching { .. }, NameReplyView::Candidates(found)) => {
                    if found.len() > 0 {
                        NameStageView::Done { found }
                    } else {
                        NameStageView::Correcting
                    }
                },
                (NameStageView::Correcting, NameReplyView::Candidates(pool)) => {
                    NameStageView::Done { found: suggestions(self.typed, pool) }
                },
                (NameStageView::Done { found }, _) => NameStageView::Done { found },
                _ => NameStageView::Failed,
            },
        }
    }

    /// The most questions that a name search can still ask.
    pub open spec fn questions_left(self) -> nat {
        match self.stage {
            NameStageView::Splitting => 3,
            NameStageView::Matching { .. } => 2,
            NameStageView::Correcting => 1,
            NameStageView::Done { .. } => 0,
            NameStageView::Failed => 0,
        }
    }

    /// What a name search will have found in the end.
    pub open spec fn promised(self, index: NameIndex) -> Option<Seq<NameCandidate>> {
        match self.stage {
            NameStageView::Splitting => resolved(index, self.typed),
            NameStageView::Matching { tokens } => named(index, self.typed, tokens),
            NameStageView::Correcting => corrected(index, self.typed),
            NameStageView::Done { found } => Some(found),
            NameStageView::Failed => None,
        }
    }

    /// A name search that is over, with what it found.
    pub open spec fn over(typed: Seq<char>, found: Option<Seq<NameCandidate>>) -> NameSearchView {
        NameSearchView {
            typed,
            stage: match found {
                Some(found) => NameStageView::Done { found },
                None => NameStageView::Failed,
            },
        }
    }
}

/// How an index answers a request.
pub open spec fn name_answer(index: NameIndex, request: NameRequestView) -> NameReplyView {
    match request {
        NameRequestView::Tokens { name } => NameReplyView::Tokens((index.tokens)(name)),
        NameRequestView::Names { sql, parameters } => match (index.names)(sql, parameters) {
            Some(found) => NameReplyView::Candidates(found),
            None => NameReplyView::Failed,
        },
        NameRequestView::Pool { sql } => match (index.pool)(sql) {
            Some(pool) => NameReplyView::Candidates(pool),
            None => NameReplyView::Failed,
        },
    }
}

/// A name search after all its questions have been answered.
pub open spec fn name_outcome(index: NameIndex, search: NameSearchView) -> NameSearchView
    decreases search.questions_left(),
{
    match search.pending() {
        Some(request) => name_outcome(index, search.next(name_answer(index, request))),
        None => search,
    }
}

proof fn lemma_outcome_is_promised(index: NameIndex, search: NameSearchView)
    ensures
        name_outcome(index, search) == NameSearchView::over(search.typed, search.promised(index)),
    decreases search.questions_left(),
{
    match search.pending() {
        Some(request) => {
            lemma_outcome_is_promised(index, search.next(name_answer(index, request)));
        },
        None => {},
    }
}

/// A name search whose questions an index answers finds exactly what [`resolved`] says of that
/// index, and fails exactly where [`resolved`] says that an answer it needs failed.
pub proof fn law_name_search_finds_what_is_resolved(index: NameIndex, typed: Seq<char>)
    ensures
        name_outcome(index, NameSearchView::start(typed)) == NameSearchView::over(
            typed,
            resolved(index, typed),
        ),
{
    lemma_outcome_is_promised(index, NameSearchView::start(typed));
}

/// Every answer brings a name search nearer to its end, whatever it is: it asks at most three
/// questions. One that is over does not change any more.
pub proof fn law_every_name_answer_is_progress(search: NameSearchView, reply: NameReplyView)
    ensures
        search.pending() is Some ==> search.next(reply).questions_left() < search.questions_left(),
        search.pending() is None ==> search.next(reply) == search,
        search.pending() is None <==> search.questions_left() == 0,
        NameSearchView::start(search.typed).questions_left() == 3,
        search.next(reply).typed == search.typed,
{
}

/// Names that hold what was typed are returned as they are; the typo correction answers only
/// where there is none. It returns at most [`MAX_SUGGESTIONS`] names, all of its pool and none
/// too many edits away.
pub proof fn law_names_come_before_corrections(index: NameIndex, typed: Seq<char>)
    ensures
        (index.names)(
            FUZZY_NAME_SQL@,
            name_parameters(typed, (index.tokens)(typed)),
        ) matches Some(found) ==> {
            &&& found.len() > 0 ==> resolved(index, typed) == Some(found)
            &&& found.len() == 0 ==> resolved(index, typed) == corrected(index, typed)
        },
        (index.pool)(FUZZY_EDIT_DISTANCE_SQL@) matches Some(pool) ==> {
            corrected(index, typed) matches Some(names) && names.len() <= MAX_SUGGESTIONS
                && forall|i: int|
                0 <= i < names.len() ==> pool.contains(#[trigger] names[i]) && edits_away(
                    typed,
                    names[i],
                ) <= allowed_edits(typed)
        },
{
    match (index.pool)(FUZZY_EDIT_DISTANCE_SQL@) {
        Some(pool) => law_suggestions_are_the_nearest(typed, pool),
        None => {},
    }
}

/// What is typed is searched for literally: a name satisfies the first parameter exactly where it
/// holds the text, and the last one with `%` behind it exactly where it begins with the text,
/// also where the text holds `%`, `_` or `\`. `same` says which characters count as the same.
pub proof fn law_typed_text_is_literal(
    typed: Seq<char>,
    tokens: Seq<char>,
    name: Seq<char>,
    same: spec_fn(char, char) -> bool,
)
    ensures
        like_matches(like_items(name_parameters(typed, tokens)[0]), name, same) <==> exists|at: int|
            stands_at(name, typed, at, same),
        name_parameters(typed, tokens)[1] == typed,
        like_matches(like_items(name_parameters(typed, tokens)[2]), name, same) <==> exists|at: int|
            stands_at(name, tokens, at, same),
        like_matches(like_items(name_parameters(typed, tokens)[3] + seq!['%']), name, same)
            <==> stands_at(name, typed, 0, same),
{
    law_holding_pattern_is_literal(typed, name, same);
    law_holding_pattern_is_literal(tokens, name, same);
    law_prefix_pattern_is_literal(typed, name, same);
}

/// The conditions by which both passes refuse names: modules, and what is bound outside the
/// project.
pub const REFUSED_NAMES: &'static str =
    "n.type != 'module'\n           AND f.path <> '<external>'";

/// The typo correction refuses what the name pass refuses: the two statements hold the same
/// conditions, required besides everything else and last before the order of the rows.
pub proof fn law_both_passes_refuse_the_same_names()
    ensures
        holds(
            FUZZY_NAME_SQL@,
            ")\n           AND "@ + REFUSED_NAMES@ + "\n         ORDER BY"@,
        ),
        holds(
            FUZZY_EDIT_DISTANCE_SQL@,
            "\n         WHERE "@ + REFUSED_NAMES@ + "\n         ORDER BY"@,
        ),
{
    reveal_strlit(
        "SELECT DISTINCT n.name, f.path, n.type, n.id, n.start_line
         FROM nodes n
         JOIN files f ON f.id = n.file_id
         WHERE (n.name LIKE ?1 ESCAPE '\\' OR n.name_tokens LIKE ?3 ESCAPE '\\')
           AND n.type != 'module'
           AND f.path <> '<external>'
         ORDER BY
           CASE WHEN n.name = ?2 THEN 0
                WHEN n.name LIKE ?4 || '%' ESCAPE '\\' THEN 1
                ELSE 2
           END,
           LENGTH(n.name)
         LIMIT 10",
    );
    reveal_strlit(
        "SELECT DISTINCT n.name, f.path, n.type, n.id, n.start_line
         FROM nodes n
         JOIN files f ON f.id = n.file_id
         WHERE n.type != 'module'
           AND f.path <> '<external>'
         ORDER BY n.id
         LIMIT 5000",
    );
    reveal_strlit("n.type != 'module'\n           AND f.path <> '<external>'");
    reveal_strlit(")\n           AND ");
    reveal_strlit("\n         WHERE ");
    reveal_strlit("\n         ORDER BY");
    let in_names = ")\n           AND "@ + REFUSED_NAMES@ + "\n         ORDER BY"@;
    let in_pool = "\n         WHERE "@ + REFUSED_NAMES@ + "\n         ORDER BY"@;
    assert(FUZZY_NAME_SQL@.subrange(200, 200 + in_names.len() as int) =~= in_names);
    assert(FUZZY_EDIT_DISTANCE_SQL@.subrange(122, 122 + in_pool.len() as int) =~= in_pool);
}

/// Whether both passes refuse a candidate.
pub open spec fn refused(candidate: NameCandidate) -> bool {
    candidate.node_type@ == "module"@ || candidate.file_path@ == "<external>"@
}

/// Whether no candidate is refused.
pub open spec fn none_refused(candidates: Seq<NameCandidate>) -> bool {
    forall|i: int| 0 <= i < candidates.len() ==> !refused(#[trigger] candidates[i])
}

/// A candidate that the statements refuse does not come back: of a database that hands out none
/// for either statement, a name search returns none.
pub proof fn law_refused_names_do_not_come_back(index: NameIndex, typed: Seq<char>)
    requires
        (index.names)(
            FUZZY_NAME_SQL@,
            name_parameters(typed, (index.tokens)(typed)),
        ) matches Some(found) ==> none_refused(found),
        (index.pool)(FUZZY_EDIT_DISTANCE_SQL@) matches Some(pool) ==> none_refused(pool),
    ensures
        resolved(index, typed) matches Some(found) ==> none_refused(found),
{
    match (index.pool)(FUZZY_EDIT_DISTANCE_SQL@) {
        Some(pool) => {
            law_suggestions_are_the_nearest(typed, pool);
            let found = suggestions(typed, pool);
            assert forall|i: int| 0 <= i < found.len() implies !refused(#[trigger] found[i]) by {
                assert(pool.contains(found[i]));
                let k = choose|k: int| 0 <= k < pool.len() && pool[k] == found[i];
                assert(!refused(pool[k]));
            }
        },
        None => {},
    }
}

/// The parameters of the name pass.
fn parameters_for(typed: &str, tokens: &str) -> (r: Vec<String>)
    ensures
        texts(r@) == name_parameters(typed@, tokens@),
{
    let mut r: Vec<String> = Vec::new();
    let in_name = pattern_holding(typed);
    let exact = typed.to_string();
    let in_tokens = pattern_holding(tokens);
    let prefix = escape_like(typed);
    r.push(in_name);
    r.push(exact);
    r.push(in_tokens);
    r.push(prefix);
    assert(texts(r@) =~= name_parameters(typed@, tokens@));
    r
}

/// What is asked, if anything.
pub open spec fn name_request_view(request: Option<NameRequest>) -> Option<NameRequestView> {
    match request {
        Some(request) => Some(request@),
        None => None,
    }
}

impl NameSearch {
    /// The question that this search waits for the answer to; `None` when it is over.
    pub fn request(&self) -> (r: Option<NameRequest>)
        ensures
            name_request_view(r) == self@.pending(),
    {
        match &self.stage {
            NameStage::Splitting => Some(
                NameRequest::Tokens { name: self.typed.as_str().to_string() },
            ),
            NameStage::Matching { tokens } => Some(
                NameRequest::Names {
                    sql: FUZZY_NAME_SQL,
                    parameters: parameters_for(self.typed.as_str(), tokens.as_str()),
                },
            ),
            NameStage::Correcting => Some(NameRequest::Pool { sql: FUZZY_EDIT_DISTANCE_SQL }),
            NameStage::Done { .. } => None,
            NameStage::Failed => None,
        }
    }

    /// Goes on with the answer to the pending question.
    ///
    /// An answer of another kind than what was asked for fails the search. A search that is over
    /// stays as it is.
    pub fn resume(self, reply: NameReply) -> (r: NameSearch)
        ensures
            r@ == self@.next(reply@),
    {
        let NameSearch { typed, stage } = self;
        let stage = match (stage, reply) {
            (NameStage::Splitting, NameReply::Tokens(tokens)) => NameStage::Matching { tokens },
            (NameStage::Matching { .. }, NameReply::Candidates(found)) => {
                if found.len() > 0 {
                    NameStage::Done { found }
                } else {
                    NameStage::Correcting
                }
            },
            (NameStage::Correcting, NameReply::Candidates(pool)) => NameStage::Done {
                found: suggest(typed.as_str(), pool),
            },
            (NameStage::Done { found }, _) => NameStage::Done { found },
            _ => NameStage::Failed,
        };
        NameSearch { typed, stage }
    }

    /// What was found, once the search is over; `None` while it is not, and when it failed.
    pub fn into_result(self) -> (r: Option<Vec<NameCandidate>>)
        ensures
            match r {
                Some(found) => self@.stage == (NameStageView::Done { found: found@ }),
                None => !(self@.stage is Done),
            },
    {
        let NameSearch { stage, .. } = self;
        match stage {
            NameStage::Done { found } => Some(found),
            _ => None,
        }
    }
}

/// Starts the search for symbol names that match the given input: names that hold it first, else
/// names a few edits away. Modules are left out.
pub fn find_functions_by_fuzzy_name(partial_name: &str) -> (r: NameSearch)
    ensures
        r@ == NameSearchView::start(partial_name@),
{
    NameSearch { typed: partial_name.to_string(), stage: NameStage::Splitting }
}

} // verus!
