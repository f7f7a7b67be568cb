//! What a full-text search finds.

use vstd::prelude::*;

verus! {

/// A node of the code graph, as a row of the index carries it.
#[derive(Debug, Clone)]
pub struct NodeResult {
    pub id: i64,
    pub file_id: i64,
    pub node_type: String,
    pub name: String,
    pub qualified_name: Option<String>,
    pub start_line: i64,
    pub end_line: i64,
    pub code_content: String,
    pub signature: Option<String>,
    pub doc_comment: Option<String>,
    pub context_string: Option<String>,
    pub name_tokens: Option<String>,
    pub return_type: Option<String>,
    pub param_types: Option<String>,
    pub is_test: bool,
}

/// A row of a full-text query: a node and its BM25 value, the bits of an IEEE 754 double.
///
/// The value is as the database computes it: negative, and the more so the better the match.
#[derive(Debug)]
pub struct MatchRow {
    pub node: NodeResult,
    pub bm25: u64,
}

/// The sign bit of an IEEE 754 double.
pub const SIGN_BIT: u64 = 0x8000_0000_0000_0000;

/// The bits of the double zero.
pub const SCORE_ZERO: u64 = 0;

/// The bits of a double with the opposite sign.
pub open spec fn negated_score(bits: u64) -> u64 {
    bits ^ SIGN_BIT
}

/// Negating a score twice gives it back.
pub proof fn law_negation_undoes_itself(bits: u64)
    ensures
        negated_score(negated_score(bits)) == bits,
{
    assert((bits ^ 0x8000_0000_0000_0000u64) ^ 0x8000_0000_0000_0000u64 == bits) by (bit_vector);
}

/// Of two negative doubles the more negative one has the greater bits. Negating keeps that order
/// and clears the sign, so the better of two matches gets the higher score.
pub proof fn law_better_matches_score_higher(a: u64, b: u64)
    requires
        a >= SIGN_BIT,
        b >= SIGN_BIT,
    ensures
        negated_score(a) < SIGN_BIT,
        a < b <==> negated_score(a) < negated_score(b),
{
    assert(a >= 0x8000_0000_0000_0000u64 ==> a ^ 0x8000_0000_0000_0000u64
        < 0x8000_0000_0000_0000u64) by (bit_vector);
    assert(a >= 0x8000_0000_0000_0000u64 && b >= 0x8000_0000_0000_0000u64 ==> (a < b <==> (a
        ^ 0x8000_0000_0000_0000u64) < (b ^ 0x8000_0000_0000_0000u64))) by (bit_vector);
}

/// Full-text search result with quality metadata.
#[derive(Debug)]
pub struct FtsResult {
    pub nodes: Vec<NodeResult>,
    /// BM25 scores (negated so that higher is better), parallel to `nodes`: the bits of IEEE 754
    /// doubles.
    pub bm25_scores: Vec<u64>,
    /// True if the rows match less than the whole query: the requirement that all terms match
    /// was dropped, or terms that the index does not hold were.
    pub or_fallback: bool,
    /// True when the rows came from the substring scan rather than from MATCH.
    pub cjk_substring_fallback: bool,
    /// Why the result is empty, when the reason is the query rather than the index. `None` means
    /// that the search ran.
    pub empty_reason: Option<&'static str>,
}

/// What a result says.
#[verifier::ext_equal]
pub struct FtsResultView {
    pub nodes: Seq<NodeResult>,
    pub bm25_scores: Seq<u64>,
    pub or_fallback: bool,
    pub cjk_substring_fallback: bool,
    pub empty_reason: Option<Seq<char>>,
}

impl View for FtsResult {
    type V = FtsResultView;

    open spec fn view(&self) -> FtsResultView {
        FtsResultView {
            nodes: self.nodes@,
            bm25_scores: self.bm25_scores@,
            or_fallback: self.or_fallback,
            cjk_substring_fallback: self.cjk_substring_fallback,
            empty_reason: match self.empty_reason {
                Some(reason) => Some(reason@),
                None => None,
            },
        }
    }
}

/// The nodes of the rows.
pub open spec fn row_nodes(rows: Seq<MatchRow>) -> Seq<NodeResult> {
    rows.map_values(|row: MatchRow| row.node)
}

/// The scores of the rows, higher for a better match.
pub open spec fn row_scores(rows: Seq<MatchRow>) -> Seq<u64> {
    rows.map_values(|row: MatchRow| negated_score(row.bm25))
}

/// The result that holds the rows of a full-text query, in their order.
pub open spec fn ranked(rows: Seq<MatchRow>, or_fallback: bool) -> FtsResultView {
    FtsResultView {
        nodes: row_nodes(rows),
        bm25_scores: row_scores(rows),
        or_fallback,
        cjk_substring_fallback: false,
        empty_reason: None,
    }
}

/// The result without rows.
pub open spec fn nothing_found(reason: Option<Seq<char>>) -> FtsResultView {
    FtsResultView {
        nodes: Seq::empty(),
        bm25_scores: Seq::empty(),
        or_fallback: false,
        cjk_substring_fallback: false,
        empty_reason: reason,
    }
}

/// The result that holds the rows of a substring scan. There is no score to give: every one is
/// zero, so the rows rank by their position alone.
pub open spec fn scanned(nodes: Seq<NodeResult>) -> FtsResultView {
    if nodes.len() == 0 {
        nothing_found(None)
    } else {
        FtsResultView {
            nodes,
            bm25_scores: Seq::new(nodes.len(), |i: int| SCORE_ZERO),
            or_fallback: false,
            cjk_substring_fallback: true,
            empty_reason: None,
        }
    }
}

impl FtsResultView {
    /// Whether the rows are a widened match.
    pub open spec fn widened(self) -> bool {
        self.or_fallback || self.cjk_substring_fallback
    }
}

impl FtsResult {
    /// Whether these rows are a widened match, as opposed to a direct hit: the precise query
    /// found nothing and the net was cast wider.
    pub fn is_widened_match(&self) -> (r: bool)
        ensures
            r == self@.widened(),
            r == (self.or_fallback || self.cjk_substring_fallback),
    {
        self.or_fallback || self.cjk_substring_fallback
    }
}

/// The result that holds the rows of a full-text query.
pub fn rank(rows: Vec<MatchRow>, or_fallback: bool) -> (r: FtsResult)
    ensures
        r@ == ranked(rows@, or_fallback),
        r.nodes@.len() == rows@.len(),
        r.bm25_scores@.len() == rows@.len(),
        forall|i: int|
            0 <= i < rows@.len() ==> r.nodes@[i] == (#[trigger] rows@[i]).node && r.bm25_scores@[i]
                == rows@[i].bm25 ^ 0x8000_0000_0000_0000u64,
        r.or_fallback == or_fallback,
        !r.cjk_substring_fallback,
        r.empty_reason is None,
{
    let mut nodes: Vec<NodeResult> = Vec::new();
    let mut bm25_scores: Vec<u64> = Vec::new();
    let ghost all = rows@;
    for row in it: rows
        invariant
            it.seq() == all,
            nodes@ == row_nodes(all.take(it.index() as int)),
            bm25_scores@ == row_scores(all.take(it.index() as int)),
    {
        proof {
            assert(all.take(it.index() + 1) =~= all.take(it.index() as int).push(row));
        }
        bm25_scores.push(row.bm25 ^ SIGN_BIT);
        nodes.push(row.node);
        proof {
            assert(nodes@ =~= row_nodes(all.take(it.index() + 1)));
            assert(bm25_scores@ =~= row_scores(all.take(it.index() + 1)));
        }
    }
    assert(all.take(all.len() as int) =~= all);
    FtsResult {
        nodes,
        bm25_scores,
        or_fallback,
        cjk_substring_fallback: false,
        empty_reason: None,
    }
}

/// The result without rows.
pub fn find_nothing(reason: Option<&'static str>) -> (r: FtsResult)
    ensures
        r@ == nothing_found(
            match reason {
                Some(why) => Some(why@),
                None => None,
            },
        ),
{
    FtsResult {
        nodes: Vec::new(),
        bm25_scores: Vec::new(),
        or_fallback: false,
        cjk_substring_fallback: false,
        empty_reason: reason,
    }
}

/// The result that holds the rows of a substring scan.
pub fn report_scan(nodes: Vec<NodeResult>) -> (r: FtsResult)
    ensures
        r@ == scanned(nodes@),
        r.nodes@ == nodes@,
        r.bm25_scores@.len() == nodes@.len(),
        forall|i: int| 0 <= i < nodes@.len() ==> #[trigger] r.bm25_scores@[i] == 0,
        r.cjk_substring_fallback == (nodes@.len() > 0),
        !r.or_fallback,
        r.empty_reason is None,
{
    if nodes.len() == 0 {
        return find_nothing(None);
    }
    let mut bm25_scores: Vec<u64> = Vec::new();
    let mut i: usize = 0;
    while i < nodes.len()
        invariant
            i <= nodes@.len(),
            bm25_scores@ == Seq::new(i as nat, |k: int| SCORE_ZERO),
        decreases nodes@.len() - i,
    {
        bm25_scores.push(SCORE_ZERO);
        assert(bm25_scores@ =~= Seq::new((i + 1) as nat, |k: int| SCORE_ZERO));
        i += 1;
    }
    FtsResult {
        nodes,
        bm25_scores,
        or_fallback: false,
        cjk_substring_fallback: true,
        empty_reason: None,
    }
}

} // verus!
