//! The texts handed to the database: statements and MATCH expressions.

use vstd::prelude::*;

use crate::classes::term_char;
use crate::text::{lemma_texts_push, texts};

verus! {

/// The columns of a node, in the order in which a row carries them.
pub const NODE_SELECT_ALIASED: &'static str =
    "n.id, n.file_id, n.type, n.name, n.qualified_name, n.start_line, n.end_line, n.code_content, n.signature, n.doc_comment, n.context_string, n.name_tokens, n.return_type, n.param_types, n.is_test";

/// The relevance of a full-text row; the more negative, the better.
pub const BM25_EXPR: &'static str =
    "bm25(nodes_fts, 5.0, 3.0, 2.0, 2.0, 1.0, 5.0, 1.0, 1.0)";

/// The ranking of a substring scan after the identifier hits: densest body, then id.
///
/// The id makes the order total, so the LIMIT always keeps the same rows.
pub const CJK_SCAN_ORDER_TAIL: &'static str = ", LENGTH(COALESCE(n.code_content, '')), n.id";

/// The columns that a substring scan looks into.
pub const SCAN_TEXT_COLUMNS: [&'static str; 5] = [
    "n.name",
    "n.qualified_name",
    "n.code_content",
    "n.context_string",
    "n.doc_comment",
];

/// Candidates of the edit-distance pass.
///
/// The LIMIT bounds the cost, and the ORDER BY says which rows it keeps. What the name pass
/// refuses to return, modules and the names bound outside the project, is left out here too.
pub const FUZZY_EDIT_DISTANCE_SQL: &'static str =
    "SELECT DISTINCT n.name, f.path, n.type, n.id, n.start_line
         FROM nodes n
         JOIN files f ON f.id = n.file_id
         WHERE n.type != 'module'
           AND f.path <> '<external>'
         ORDER BY n.id
         LIMIT 5000";

/// The name pass: names that hold the text, or whose tokens hold the tokens.
///
/// `?1` is the pattern for the name, `?2` the text as it was typed for the exact hit, `?3` the
/// pattern for the tokens, `?4` the escaped text for the prefix hit. Modules are left out, and
/// so are the stand-ins for names bound outside the project, which nobody can open.
pub const FUZZY_NAME_SQL: &'static str =
    "SELECT DISTINCT n.name, f.path, n.type, n.id, n.start_line
         FROM nodes n
         JOIN files f ON f.id = n.file_id
         WHERE (n.name LIKE ?1 ESCAPE '\\' OR n.name_tokens LIKE ?3 ESCAPE '\\')
           AND n.type != 'module'
           AND f.path <> '<external>'
         ORDER BY
           CASE WHEN n.name = ?2 THEN 0
                WHEN n.name LIKE ?4 || '%' ESCAPE '\\' THEN 1
                ELSE 2
           END,
           LENGTH(n.name)
         LIMIT 10";

/// Texts with a separator between them.
pub open spec fn join(parts: Seq<Seq<char>>, separator: Seq<char>) -> Seq<char>
    decreases parts.len(),
{
    if parts.len() == 0 {
        Seq::empty()
    } else if parts.len() == 1 {
        parts[0]
    } else {
        join(parts.drop_last(), separator) + separator + parts.last()
    }
}

/// A term between double quotes: a phrase, whatever word it is.
pub open spec fn quoted(term: Seq<char>) -> Seq<char> {
    seq!['"'] + term + seq!['"']
}

/// [`quoted`] as a function value.
pub open spec fn quoting() -> spec_fn(Seq<char>) -> Seq<char> {
    |term: Seq<char>| quoted(term)
}

/// The MATCH expression that asks for all the terms.
pub open spec fn all_of(terms: Seq<Seq<char>>) -> Seq<char> {
    join(terms.map_values(quoting()), " AND "@)
}

/// The MATCH expression that asks for any of the terms.
pub open spec fn any_of(terms: Seq<Seq<char>>) -> Seq<char> {
    join(terms.map_values(quoting()), " OR "@)
}

/// The condition that leaves out test symbols.
pub open spec fn test_filter(exclude_tests: bool) -> Seq<char> {
    if exclude_tests {
        " AND n.is_test = 0"@
    } else {
        Seq::empty()
    }
}

/// The statement for ranked full-text rows: `?1` is the MATCH expression, `?2` the limit.
pub open spec fn match_sql(exclude_tests: bool) -> Seq<char> {
    "SELECT "@ + NODE_SELECT_ALIASED@ + ", "@ + BM25_EXPR@
        + " FROM nodes_fts fts JOIN nodes n ON n.id = fts.rowid WHERE nodes_fts MATCH ?1"@
        + test_filter(exclude_tests) + "\n         ORDER BY "@ + BM25_EXPR@ + " LIMIT ?2"@
}

/// The statement that asks whether a MATCH expression has any row at all.
pub open spec fn probe_sql(exclude_tests: bool) -> Seq<char> {
    "SELECT 1 FROM nodes_fts fts JOIN nodes n ON n.id = fts.rowid WHERE nodes_fts MATCH ?1"@
        + test_filter(exclude_tests) + " LIMIT 1"@
}

/// A decimal digit.
pub open spec fn digit(d: nat) -> char {
    if d == 0 {
        '0'
    } else if d == 1 {
        '1'
    } else if d == 2 {
        '2'
    } else if d == 3 {
        '3'
    } else if d == 4 {
        '4'
    } else if d == 5 {
        '5'
    } else if d == 6 {
        '6'
    } else if d == 7 {
        '7'
    } else if d == 8 {
        '8'
    } else {
        '9'
    }
}

/// A number in decimal.
pub open spec fn decimal(n: nat) -> Seq<char>
    decreases n,
{
    if n < 10 {
        seq![digit(n)]
    } else {
        decimal(n / 10).push(digit(n % 10))
    }
}

/// The condition that a column holds what parameter `n` asks for.
pub open spec fn like_condition(column: Seq<char>, n: nat) -> Seq<char> {
    column + " LIKE ?"@ + decimal(n) + " ESCAPE '\\'"@
}

/// The conditions on every scanned column for parameter `n`.
pub open spec fn column_conditions(n: nat) -> Seq<Seq<char>> {
    Seq::new(
        SCAN_TEXT_COLUMNS@.len(),
        |i: int| like_condition(SCAN_TEXT_COLUMNS@[i]@, n),
    )
}

/// The condition that some scanned column holds what parameter `n` asks for.
pub open spec fn term_clause(n: nat) -> Seq<char> {
    "("@ + join(column_conditions(n), " OR "@) + ")"@
}

/// One clause for each of `count` parameters, numbered from one.
pub open spec fn term_clauses(count: nat) -> Seq<Seq<char>> {
    Seq::new(count, |i: int| term_clause((i + 1) as nat))
}

/// The conditions for an identifier hit: for every parameter, the name or the qualified name.
pub open spec fn name_hits(count: nat) -> Seq<Seq<char>>
    decreases count,
{
    if count == 0 {
        Seq::empty()
    } else {
        name_hits((count - 1) as nat).push(like_condition("n.name"@, count)).push(
            like_condition("n.qualified_name"@, count),
        )
    }
}

/// The statement for the substring scan of `count` terms: parameters `?1` on are the patterns,
/// the one after them is the limit.
///
/// Every term has to be found; identifier hits of any term come first.
pub open spec fn scan_sql(count: nat, exclude_tests: bool) -> Seq<char> {
    "SELECT "@ + NODE_SELECT_ALIASED@ + " FROM nodes n WHERE "@ + join(
        term_clauses(count),
        " AND "@,
    ) + test_filter(exclude_tests) + " ORDER BY CASE WHEN "@ + join(name_hits(count), " OR "@)
        + " THEN 0 ELSE 1 END"@ + CJK_SCAN_ORDER_TAIL@ + " LIMIT ?"@ + decimal(count + 1)
}

/// What is read of a MATCH expression from the left: the phrases that are closed, and the one
/// that a double quote has opened.
pub struct Reading {
    pub closed: Seq<Seq<char>>,
    pub opened: Option<Seq<char>>,
}

/// Reads a MATCH expression: a double quote opens a phrase, the next one closes it.
pub open spec fn read_phrases(expression: Seq<char>) -> Reading
    decreases expression.len(),
{
    if expression.len() == 0 {
        Reading { closed: Seq::empty(), opened: None }
    } else {
        let before = read_phrases(expression.drop_last());
        let c = expression.last();
        match before.opened {
            None => if c == '"' {
                Reading { closed: before.closed, opened: Some(Seq::empty()) }
            } else {
                before
            },
            Some(phrase) => if c == '"' {
                Reading { closed: before.closed.push(phrase), opened: None }
            } else {
                Reading { closed: before.closed, opened: Some(phrase.push(c)) }
            },
        }
    }
}

/// Whether a text holds no double quote.
pub open spec fn quote_free(text: Seq<char>) -> bool {
    forall|i: int| 0 <= i < text.len() ==> #[trigger] text[i] != '"'
}

proof fn lemma_read_plain(before: Seq<char>, plain: Seq<char>)
    requires
        quote_free(plain),
    ensures
        read_phrases(before).opened is None ==> read_phrases(before + plain) == read_phrases(
            before,
        ),
        read_phrases(before).opened is Some ==> read_phrases(before + plain) == (Reading {
            closed: read_phrases(before).closed,
            opened: Some(read_phrases(before).opened->0 + plain),
        }),
    decreases plain.len(),
{
    if plain.len() == 0 {
        assert(before + plain =~= before);
        if read_phrases(before).opened is Some {
            assert(read_phrases(before).opened->0 + plain =~= read_phrases(before).opened->0);
        }
    } else {
        let init = plain.drop_last();
        assert forall|i: int| 0 <= i < init.len() implies #[trigger] init[i] != '"' by {
            assert(plain[i] != '"');
        }
        lemma_read_plain(before, init);
        assert(plain[plain.len() - 1] != '"');
        assert((before + plain).drop_last() =~= before + init);
        if read_phrases(before).opened is Some {
            let phrase = read_phrases(before).opened->0;
            assert((phrase + init).push(plain.last()) =~= phrase + plain);
        }
    }
}

proof fn lemma_read_quoted(before: Seq<char>, term: Seq<char>)
    requires
        quote_free(term),
        read_phrases(before).opened is None,
    ensures
        read_phrases(before + quoted(term)) == (Reading {
            closed: read_phrases(before).closed.push(term),
            opened: None,
        }),
{
    let opening = before.push('"');
    assert(opening.drop_last() =~= before);
    lemma_read_plain(opening, term);
    assert(Seq::<char>::empty() + term =~= term);
    let whole = (opening + term).push('"');
    assert(whole.drop_last() =~= opening + term);
    assert(whole =~= before + quoted(term));
}

proof fn lemma_read_joined(terms: Seq<Seq<char>>, separator: Seq<char>)
    requires
        forall|i: int| 0 <= i < terms.len() ==> quote_free(#[trigger] terms[i]),
        quote_free(separator),
    ensures
        read_phrases(join(terms.map_values(quoting()), separator)) == (Reading {
            closed: terms,
            opened: None,
        }),
    decreases terms.len(),
{
    let parts = terms.map_values(quoting());
    if terms.len() == 0 {
        assert(terms =~= Seq::<Seq<char>>::empty());
    } else {
        let init = terms.drop_last();
        let last = terms.last();
        assert(quote_free(terms[terms.len() - 1]));
        assert forall|i: int| 0 <= i < init.len() implies quote_free(#[trigger] init[i]) by {
            assert(quote_free(terms[i]));
        }
        lemma_read_joined(init, separator);
        assert(parts.drop_last() =~= init.map_values(quoting()));
        assert(init.push(last) =~= terms);
        if terms.len() == 1 {
            let nothing = Seq::<char>::empty();
            assert(read_phrases(nothing).opened is None);
            lemma_read_quoted(nothing, last);
            assert(nothing + quoted(last) =~= join(parts, separator));
            assert(read_phrases(nothing).closed =~= init);
        } else {
            let before = join(init.map_values(quoting()), separator);
            lemma_read_plain(before, separator);
            lemma_read_quoted(before + separator, last);
        }
    }
}

/// Terms made of term characters come out of a MATCH expression as they went in: each is one
/// phrase, and none of them can open, close or add anything.
pub proof fn law_expressions_read_back(terms: Seq<Seq<char>>)
    requires
        forall|i: int, k: int|
            0 <= i < terms.len() && 0 <= k < terms[i].len() ==> term_char(#[trigger] terms[i][k]),
    ensures
        read_phrases(all_of(terms)) == (Reading { closed: terms, opened: None }),
        read_phrases(any_of(terms)) == (Reading { closed: terms, opened: None }),
{
    assert forall|i: int| 0 <= i < terms.len() implies quote_free(#[trigger] terms[i]) by {
        assert forall|k: int| 0 <= k < terms[i].len() implies #[trigger] terms[i][k] != '"' by {
            assert(term_char(terms[i][k]));
        }
    }
    reveal_strlit(" AND ");
    reveal_strlit(" OR ");
    lemma_read_joined(terms, " AND "@);
    lemma_read_joined(terms, " OR "@);
}

proof fn lemma_join_push(parts: Seq<Seq<char>>, part: Seq<char>, separator: Seq<char>)
    ensures
        join(parts.push(part), separator) == (if parts.len() == 0 {
            part
        } else {
            join(parts, separator) + separator + part
        }),
{
    assert(parts.push(part).drop_last() =~= parts);
}

/// Texts with a separator between them.
pub fn join_strings(parts: &Vec<String>, separator: &str) -> (r: String)
    ensures
        r@ == join(texts(parts@), separator@),
{
    let mut joined: String = String::new();
    let ghost all = texts(parts@);
    let mut i: usize = 0;
    assert(joined@ =~= join(all.take(0), separator@));
    while i < parts.len()
        invariant
            all == texts(parts@),
            i <= parts@.len(),
            joined@ == join(all.take(i as int), separator@),
        decreases parts@.len() - i,
    {
        proof {
            assert(all.take(i + 1) =~= all.take(i as int).push(all[i as int]));
            lemma_join_push(all.take(i as int), all[i as int], separator@);
        }
        if i > 0 {
            joined.append(separator);
        }
        joined.append(parts[i].as_str());
        proof {
            if i == 0 {
                assert(joined@ =~= all[0]);
            }
        }
        i += 1;
    }
    assert(all.take(all.len() as int) =~= all);
    joined
}

/// A term between double quotes.
pub fn quote(term: &str) -> (r: String)
    ensures
        r@ == quoted(term@),
{
    let mut s: String = String::new();
    s.push('"');
    s.append(term);
    s.push('"');
    assert(s@ =~= quoted(term@));
    s
}

/// The terms between double quotes.
pub fn quote_all(terms: &Vec<String>) -> (r: Vec<String>)
    ensures
        texts(r@) == texts(terms@).map_values(quoting()),
{
    let mut out: Vec<String> = Vec::new();
    let ghost all = texts(terms@).map_values(quoting());
    let mut i: usize = 0;
    assert(texts(out@) =~= all.take(0));
    while i < terms.len()
        invariant
            all == texts(terms@).map_values(quoting()),
            i <= terms@.len(),
            texts(out@) == all.take(i as int),
        decreases terms@.len() - i,
    {
        let q = quote(terms[i].as_str());
        proof {
            lemma_texts_push(out@, q);
            assert(all.take(i + 1) =~= all.take(i as int).push(q@));
        }
        out.push(q);
        i += 1;
    }
    assert(all.take(all.len() as int) =~= all);
    out
}

/// The MATCH expression that asks for all the terms.
pub fn require_all(terms: &Vec<String>) -> (r: String)
    ensures
        r@ == all_of(texts(terms@)),
{
    join_strings(&quote_all(terms), " AND ")
}

/// The MATCH expression that asks for any of the terms.
pub fn allow_any(terms: &Vec<String>) -> (r: String)
    ensures
        r@ == any_of(texts(terms@)),
{
    join_strings(&quote_all(terms), " OR ")
}

/// The statement for ranked full-text rows.
pub fn match_statement(exclude_tests: bool) -> (r: String)
    ensures
        r@ == match_sql(exclude_tests),
{
    let mut s: String = String::new();
    s.append("SELECT ");
    s.append(NODE_SELECT_ALIASED);
    s.append(", ");
    s.append(BM25_EXPR);
    s.append(" FROM nodes_fts fts JOIN nodes n ON n.id = fts.rowid WHERE nodes_fts MATCH ?1");
    if exclude_tests {
        s.append(" AND n.is_test = 0");
    }
    s.append("\n         ORDER BY ");
    s.append(BM25_EXPR);
    s.append(" LIMIT ?2");
    assert(s@ =~= match_sql(exclude_tests));
    s
}

/// The statement that asks whether a MATCH expression has any row at all.
pub fn probe_statement(exclude_tests: bool) -> (r: String)
    ensures
        r@ == probe_sql(exclude_tests),
{
    let mut s: String = String::new();
    s.append(
        "SELECT 1 FROM nodes_fts fts JOIN nodes n ON n.id = fts.rowid WHERE nodes_fts MATCH ?1",
    );
    if exclude_tests {
        s.append(" AND n.is_test = 0");
    }
    s.append(" LIMIT 1");
    assert(s@ =~= probe_sql(exclude_tests));
    s
}

fn digit_char(d: usize) -> (c: char)
    requires
        d < 10,
    ensures
        c == digit(d as nat),
{
    match d {
        0 => '0',
        1 => '1',
        2 => '2',
        3 => '3',
        4 => '4',
        5 => '5',
        6 => '6',
        7 => '7',
        8 => '8',
        _ => '9',
    }
}

/// Appends a number in decimal.
fn push_decimal(s: &mut String, n: usize)
    ensures
        final(s)@ == old(s)@ + decimal(n as nat),
    decreases n,
{
    if n < 10 {
        s.push(digit_char(n));
        assert(s@ =~= old(s)@ + decimal(n as nat));
    } else {
        push_decimal(s, n / 10);
        s.push(digit_char(n % 10));
        assert(s@ =~= old(s)@ + decimal(n as nat));
    }
}

/// The condition that a column holds what parameter `n` asks for.
fn like_condition_for(column: &str, n: usize) -> (r: String)
    ensures
        r@ == like_condition(column@, n as nat),
{
    let mut s: String = String::new();
    s.append(column);
    s.append(" LIKE ?");
    push_decimal(&mut s, n);
    s.append(" ESCAPE '\\'");
    assert(s@ =~= like_condition(column@, n as nat));
    s
}

/// The condition that some scanned column holds what parameter `n` asks for.
fn term_clause_for(n: usize) -> (r: String)
    ensures
        r@ == term_clause(n as nat),
{
    let columns = SCAN_TEXT_COLUMNS;
    let mut conditions: Vec<String> = Vec::new();
    let ghost all = column_conditions(n as nat);
    let mut i: usize = 0;
    assert(texts(conditions@) =~= all.take(0));
    while i < columns.len()
        invariant
            columns == SCAN_TEXT_COLUMNS,
            all == column_conditions(n as nat),
            i <= columns@.len(),
            texts(conditions@) == all.take(i as int),
        decreases columns@.len() - i,
    {
        let c = like_condition_for(columns[i], n);
        proof {
            lemma_texts_push(conditions@, c);
            assert(all.take(i + 1) =~= all.take(i as int).push(c@));
        }
        conditions.push(c);
        i += 1;
    }
    assert(all.take(all.len() as int) =~= all);
    let mut s: String = String::new();
    s.append("(");
    let joined = join_strings(&conditions, " OR ");
    s.append(joined.as_str());
    s.append(")");
    assert(s@ =~= term_clause(n as nat));
    s
}

/// The statement for the substring scan of `count` terms.
pub fn scan_statement(count: usize, exclude_tests: bool) -> (r: String)
    requires
        count < usize::MAX,
    ensures
        r@ == scan_sql(count as nat, exclude_tests),
{
    let mut clauses: Vec<String> = Vec::new();
    let mut hits: Vec<String> = Vec::new();
    let ghost all = term_clauses(count as nat);
    let mut i: usize = 0;
    assert(texts(clauses@) =~= all.take(0));
    assert(texts(hits@) =~= name_hits(0));
    while i < count
        invariant
            i <= count,
            count < usize::MAX,
            all == term_clauses(count as nat),
            texts(clauses@) == all.take(i as int),
            texts(hits@) == name_hits(i as nat),
        decreases count - i,
    {
        let n: usize = i + 1;
        let clause = term_clause_for(n);
        let by_name = like_condition_for("n.name", n);
        let by_qualified_name = like_condition_for("n.qualified_name", n);
        proof {
            lemma_texts_push(clauses@, clause);
            assert(all.take(i + 1) =~= all.take(i as int).push(clause@));
            lemma_texts_push(hits@, by_name);
            lemma_texts_push(hits@.push(by_name), by_qualified_name);
        }
        clauses.push(clause);
        hits.push(by_name);
        hits.push(by_qualified_name);
        i += 1;
    }
    assert(all.take(all.len() as int) =~= all);
    let every_term = join_strings(&clauses, " AND ");
    let any_name = join_strings(&hits, " OR ");
    let mut s: String = String::new();
    s.append("SELECT ");
    s.append(NODE_SELECT_ALIASED);
    s.append(" FROM nodes n WHERE ");
    s.append(every_term.as_str());
    if exclude_tests {
        s.append(" AND n.is_test = 0");
    }
    s.append(" ORDER BY CASE WHEN ");
    s.append(any_name.as_str());
    s.append(" THEN 0 ELSE 1 END");
    s.append(CJK_SCAN_ORDER_TAIL);
    s.append(" LIMIT ?");
    push_decimal(&mut s, count + 1);
    assert(s@ =~= scan_sql(count as nat, exclude_tests));
    s
}

} // verus!
