//! What the statements and expressions ask for, read back from their texts.

use vstd::prelude::*;

use crate::classes::term_char;
use crate::like::{
    holding_pattern, law_holding_pattern_is_literal, like_items, like_matches, stands_at,
    to_holding_pattern,
};
use crate::reading::{
    all_hold, condition_holds, depth, flat_holds, free_of, grouping, cuts, lemma_depth_add,
    lemma_depth_none, lemma_group_uncut, lemma_one_piece, lemma_pieces_of_join, lemma_uncut_by_mark,
    lemma_uncut_by_space, pieces, uncut,
};
use crate::sql::{
    all_of, any_of, column_conditions, decimal, digit, join, match_sql, name_hits, probe_sql,
    quoting, scan_sql, term_clause, term_clauses, test_filter, BM25_EXPR, CJK_SCAN_ORDER_TAIL,
    NODE_SELECT_ALIASED, SCAN_TEXT_COLUMNS,
};
use crate::terms::scan_terms;

verus! {

/// The number that decimal digits write.
pub open spec fn number_of(digits: Seq<char>) -> int
    decreases digits.len(),
{
    if digits.len() == 0 {
        0
    } else {
        number_of(digits.drop_last()) * 10 + (digits.last() as u32 - 0x30)
    }
}

/// A number is written in ASCII digits that write that number, without a zero in front.
pub proof fn law_numbers_read_back(n: nat)
    ensures
        number_of(decimal(n)) == n,
        decimal(n).len() > 0,
        forall|i: int| 0 <= i < decimal(n).len() ==> 0x30 <= (#[trigger] decimal(n)[i]) as u32 <= 0x39,
        n > 0 ==> decimal(n)[0] as u32 != 0x30,
    decreases n,
{
    let text = decimal(n);
    if n < 10 {
        assert(text.drop_last() =~= Seq::<char>::empty());
        assert(number_of(Seq::<char>::empty()) == 0);
        assert(text.last() == digit(n));
    } else {
        law_numbers_read_back(n / 10);
        assert(text.drop_last() =~= decimal(n / 10));
        assert(text.last() == digit(n % 10));
        assert forall|i: int| 0 <= i < text.len() implies 0x30 <= (#[trigger] text[i]) as u32
            <= 0x39 by {
            if i < text.len() - 1 {
                assert(text[i] == decimal(n / 10)[i]);
            }
        }
        assert(text[0] == decimal(n / 10)[0]);
    }
}

/// The part of a condition that asks whether a column holds what parameter `k` says.
pub open spec fn asks(column: Seq<char>, k: nat) -> Seq<char> {
    column + " LIKE ?"@ + decimal(k) + " ESCAPE '\\'"@
}

/// Whether one of the columns that can hold prose has what parameter `k` says.
pub open spec fn some_column_has(truth: spec_fn(Seq<char>) -> bool, k: nat) -> bool {
    ||| truth(asks("n.name"@, k))
    ||| truth(asks("n.qualified_name"@, k))
    ||| truth(asks("n.code_content"@, k))
    ||| truth(asks("n.context_string"@, k))
    ||| truth(asks("n.doc_comment"@, k))
}

/// Whether an identifier has what parameter `k` says.
pub open spec fn some_identifier_has(truth: spec_fn(Seq<char>) -> bool, k: nat) -> bool {
    truth(asks("n.name"@, k)) || truth(asks("n.qualified_name"@, k))
}

/// No parenthesis, and neither of the letters by which AND and OR are told from other words.
spec fn plain(text: Seq<char>) -> bool {
    forall|i: int|
        0 <= i < text.len() ==> #[trigger] text[i] != '(' && text[i] != ')' && text[i] != 'R'
            && text[i] != 'D'
}

proof fn lemma_plain_add(a: Seq<char>, b: Seq<char>)
    requires
        plain(a),
        plain(b),
    ensures
        plain(a + b),
{
    assert forall|i: int| 0 <= i < (a + b).len() implies #[trigger] (a + b)[i] != '(' && (a + b)[i]
        != ')' && (a + b)[i] != 'R' && (a + b)[i] != 'D' by {
        if i < a.len() {
            assert(a[i] != '(');
        } else {
            assert(b[i - a.len()] != '(');
        }
    }
}

proof fn lemma_plain_free(text: Seq<char>)
    requires
        plain(text),
    ensures
        free_of(text, '('),
        free_of(text, ')'),
        free_of(text, 'R'),
        free_of(text, 'D'),
        depth(text) == 0,
{
    assert forall|i: int| 0 <= i < text.len() implies #[trigger] text[i] != '(' && text[i] != ')'
        && text[i] != 'R' && text[i] != 'D' by {}
    lemma_depth_none(text);
}

proof fn lemma_asks_plain(column: Seq<char>, k: nat)
    requires
        plain(column),
    ensures
        plain(asks(column, k)),
        asks(column, k).len() > 0,
        asks(column, k).last() == '\'',
{
    reveal_strlit(" LIKE ?");
    reveal_strlit(" ESCAPE '\\'");
    law_numbers_read_back(k);
    assert forall|i: int| 0 <= i < decimal(k).len() implies #[trigger] decimal(k)[i] != '('
        && decimal(k)[i] != ')' && decimal(k)[i] != 'R' && decimal(k)[i] != 'D' by {
        assert(0x30 <= decimal(k)[i] as u32 <= 0x39);
    }
    lemma_plain_add(column, " LIKE ?"@);
    lemma_plain_add(column + " LIKE ?"@, decimal(k));
    lemma_plain_add(column + " LIKE ?"@ + decimal(k), " ESCAPE '\\'"@);
}

proof fn lemma_columns_plain()
    ensures
        plain("n.name"@),
        plain("n.qualified_name"@),
        plain("n.code_content"@),
        plain("n.context_string"@),
        plain("n.doc_comment"@),
{
    reveal_strlit("n.name");
    reveal_strlit("n.qualified_name");
    reveal_strlit("n.code_content");
    reveal_strlit("n.context_string");
    reveal_strlit("n.doc_comment");
}

proof fn lemma_separators()
    ensures
        " AND "@.len() == 5,
        " OR "@.len() == 4,
        " AND "@ == seq![' ', 'A', 'N', 'D', ' '],
        " OR "@ == seq![' ', 'O', 'R', ' '],
        depth(" AND "@) == 0,
        depth(" OR "@) == 0,
{
    reveal_strlit(" AND ");
    reveal_strlit(" OR ");
    assert(" AND "@ =~= seq![' ', 'A', 'N', 'D', ' ']);
    assert(" OR "@ =~= seq![' ', 'O', 'R', ' ']);
    lemma_depth_none(" AND "@);
    lemma_depth_none(" OR "@);
}

/// Plain parts between ORs: what is read is that one of them holds.
proof fn lemma_alternatives(parts: Seq<Seq<char>>, truth: spec_fn(Seq<char>) -> bool)
    requires
        parts.len() > 0,
        forall|i: int| 0 <= i < parts.len() ==> plain(#[trigger] parts[i]),
    ensures
        flat_holds(join(parts, " OR "@), truth) <==> exists|i: int|
            0 <= i < parts.len() && truth(#[trigger] parts[i]),
{
    lemma_separators();
    let text = join(parts, " OR "@);
    assert forall|i: int| 0 <= i < parts.len() implies uncut(#[trigger] parts[i], " OR "@)
        && depth(parts[i]) == 0 && pieces(parts[i], " AND "@) == seq![parts[i]] by {
        lemma_plain_free(parts[i]);
        lemma_uncut_by_mark(parts[i], " OR "@, 2);
        lemma_uncut_by_mark(parts[i], " AND "@, 3);
        lemma_one_piece(parts[i], " AND "@);
    }
    lemma_pieces_of_join(parts, " OR "@);
    assert forall|i: int| 0 <= i < parts.len() implies all_hold(#[trigger] parts[i], truth)
        == truth(parts[i]) by {
        assert(pieces(parts[i], " AND "@) == seq![parts[i]]);
        assert(pieces(parts[i], " AND "@)[0] == parts[i]);
    }
    if flat_holds(text, truth) {
        let i = choose|i: int|
            0 <= i < pieces(text, " OR "@).len() && all_hold(
                #[trigger] pieces(text, " OR "@)[i],
                truth,
            );
        assert(truth(parts[i]));
    }
    if exists|i: int| 0 <= i < parts.len() && truth(#[trigger] parts[i]) {
        let i = choose|i: int| 0 <= i < parts.len() && truth(#[trigger] parts[i]);
        assert(all_hold(pieces(text, " OR "@)[i], truth));
    }
}

/// Terms without spaces and parentheses, quoted, between ANDs or between ORs.
proof fn lemma_phrases_uncut(terms: Seq<Seq<char>>, i: int)
    requires
        0 <= i < terms.len(),
        forall|k: int| 0 <= k < terms[i].len() ==> term_char(#[trigger] terms[i][k]),
    ensures
        ({
            let phrase = terms.map_values(quoting())[i];
            &&& phrase == seq!['"'] + terms[i] + seq!['"']
            &&& depth(phrase) == 0
            &&& uncut(phrase, " AND "@)
            &&& uncut(phrase, " OR "@)
            &&& pieces(phrase, " AND "@) == seq![phrase]
        }),
{
    lemma_separators();
    let phrase = seq!['"'] + terms[i] + seq!['"'];
    assert forall|k: int| 0 <= k < phrase.len() implies #[trigger] phrase[k] != ' ' && phrase[k]
        != '(' && phrase[k] != ')' by {
        if 0 < k < phrase.len() - 1 {
            assert(term_char(terms[i][k - 1]));
            assert(phrase[k] == terms[i][k - 1]);
        }
    }
    lemma_depth_none(phrase);
    lemma_uncut_by_space(phrase, " AND "@);
    lemma_uncut_by_space(phrase, " OR "@);
    lemma_one_piece(phrase, " AND "@);
}

/// A MATCH expression for all the terms says that every one of them, as a phrase, matches; one
/// for any of them says that some one does. However many terms there are.
pub proof fn law_expressions_mean_all_and_any(terms: Seq<Seq<char>>)
    requires
        terms.len() > 0,
        forall|i: int, k: int|
            0 <= i < terms.len() && 0 <= k < terms[i].len() ==> term_char(#[trigger] terms[i][k]),
    ensures
        forall|truth: spec_fn(Seq<char>) -> bool| #[trigger]
            flat_holds(all_of(terms), truth) <==> forall|i: int|
                0 <= i < terms.len() ==> truth(seq!['"'] + #[trigger] terms[i] + seq!['"']),
        forall|truth: spec_fn(Seq<char>) -> bool| #[trigger]
            flat_holds(any_of(terms), truth) <==> exists|i: int|
                0 <= i < terms.len() && truth(seq!['"'] + #[trigger] terms[i] + seq!['"']),
{
    lemma_separators();
    let phrases = terms.map_values(quoting());
    assert forall|i: int| 0 <= i < phrases.len() implies {
        &&& #[trigger] phrases[i] == seq!['"'] + terms[i] + seq!['"']
        &&& depth(phrases[i]) == 0
        &&& uncut(phrases[i], " AND "@)
        &&& uncut(phrases[i], " OR "@)
        &&& pieces(phrases[i], " AND "@) == seq![phrases[i]]
    } by {
        assert forall|k: int| 0 <= k < terms[i].len() implies term_char(#[trigger] terms[i][k]) by {
            assert(term_char(terms[i][k]));
        }
        lemma_phrases_uncut(terms, i);
    }
    lemma_pieces_of_join(phrases, " AND "@);
    lemma_pieces_of_join(phrases, " OR "@);
    let all = all_of(terms);
    let any = any_of(terms);
    lemma_no_or_between_ands(phrases);
    lemma_one_piece(all, " OR "@);
    assert forall|truth: spec_fn(Seq<char>) -> bool| #[trigger]
        flat_holds(all, truth) <==> forall|i: int|
            0 <= i < terms.len() ==> truth(seq!['"'] + #[trigger] terms[i] + seq!['"']) by {
        assert(pieces(all, " OR "@)[0] == all);
        assert(pieces(all, " AND "@) == phrases);
        if flat_holds(all, truth) {
            assert(all_hold(all, truth));
            assert forall|i: int| 0 <= i < terms.len() implies truth(
                seq!['"'] + #[trigger] terms[i] + seq!['"'],
            ) by {
                assert(truth(pieces(all, " AND "@)[i]));
            }
        }
        if forall|i: int|
            0 <= i < terms.len() ==> truth(seq!['"'] + #[trigger] terms[i] + seq!['"']) {
            assert forall|i: int| 0 <= i < pieces(all, " AND "@).len() implies truth(
                #[trigger] pieces(all, " AND "@)[i],
            ) by {
                assert(truth(seq!['"'] + terms[i] + seq!['"']));
            }
            assert(all_hold(pieces(all, " OR "@)[0], truth));
        }
    }
    assert forall|truth: spec_fn(Seq<char>) -> bool| #[trigger]
        flat_holds(any, truth) <==> exists|i: int|
            0 <= i < terms.len() && truth(seq!['"'] + #[trigger] terms[i] + seq!['"']) by {
        assert(pieces(any, " OR "@) == phrases);
        assert forall|i: int| 0 <= i < phrases.len() implies all_hold(#[trigger] phrases[i], truth)
            == truth(phrases[i]) by {
            assert(pieces(phrases[i], " AND "@)[0] == phrases[i]);
        }
        if flat_holds(any, truth) {
            let i = choose|i: int|
                0 <= i < pieces(any, " OR "@).len() && all_hold(
                    #[trigger] pieces(any, " OR "@)[i],
                    truth,
                );
            assert(truth(phrases[i]));
            assert(truth(seq!['"'] + terms[i] + seq!['"']));
        }
        if exists|i: int|
            0 <= i < terms.len() && truth(seq!['"'] + #[trigger] terms[i] + seq!['"']) {
            let i = choose|i: int|
                0 <= i < terms.len() && truth(seq!['"'] + #[trigger] terms[i] + seq!['"']);
            assert(all_hold(pieces(any, " OR "@)[i], truth));
        }
    }
}

/// Texts that read " OR " nowhere: behind every R there is no space outside parentheses.
spec fn or_less(text: Seq<char>) -> bool {
    &&& depth(text) == 0
    &&& text.len() > 0 && text.last() != 'R'
    &&& forall|k: int|
        2 <= k <= text.len() && depth(#[trigger] text.take(k)) == 0 && text[k - 1] == ' ' ==> text[k
            - 2] != 'R'
}

proof fn lemma_or_less_add(a: Seq<char>, b: Seq<char>)
    requires
        or_less(a),
        depth(b) == 0,
        b.len() > 0,
        b.last() != 'R',
        forall|k: int|
            1 <= k <= b.len() && depth(#[trigger] b.take(k)) == 0 && b[k - 1] == ' ' && k >= 2
                ==> b[k - 2] != 'R',
    ensures
        or_less(a + b),
{
    let text = a + b;
    lemma_depth_add(a, b);
    assert forall|k: int|
        2 <= k <= text.len() && depth(#[trigger] text.take(k)) == 0 && text[k - 1]
            == ' ' implies text[k - 2] != 'R' by {
        if k <= a.len() {
            assert(text.take(k) =~= a.take(k));
            assert(a[k - 1] == ' ');
        } else {
            let j = k - a.len();
            assert(text.take(k) =~= a + b.take(j));
            lemma_depth_add(a, b.take(j));
            assert(b[j - 1] == ' ');
            if j >= 2 {
                assert(b[j - 2] == text[k - 2]);
            }
        }
    }
}

proof fn lemma_or_less_uncut(text: Seq<char>)
    requires
        or_less(text),
    ensures
        forall|k: int| 0 < k <= text.len() ==> !cuts(#[trigger] text.take(k), " OR "@),
{
    lemma_separators();
    assert forall|k: int| 0 < k <= text.len() implies !cuts(#[trigger] text.take(k), " OR "@) by {
        let t = text.take(k);
        if cuts(t, " OR "@) {
            assert(t.skip(t.len() - 4)[3] == t[k - 1]);
            assert(t.skip(t.len() - 4)[2] == t[k - 2]);
        }
    }
}

/// Phrases, or groups, between ANDs hold no OR outside parentheses.
proof fn lemma_or_less_join(parts: Seq<Seq<char>>)
    requires
        parts.len() > 0,
        forall|i: int| 0 <= i < parts.len() ==> or_less(#[trigger] parts[i]),
    ensures
        or_less(join(parts, " AND "@)),
    decreases parts.len(),
{
    lemma_separators();
    assert(or_less(parts[parts.len() - 1]));
    if parts.len() > 1 {
        let init = parts.drop_last();
        assert forall|i: int| 0 <= i < init.len() implies or_less(#[trigger] init[i]) by {
            assert(init[i] == parts[i]);
        }
        lemma_or_less_join(init);
        lemma_or_less_add(join(init, " AND "@), " AND "@);
        lemma_or_less_add(join(init, " AND "@) + " AND "@, parts.last());
    }
}

proof fn lemma_no_or_between_ands(phrases: Seq<Seq<char>>)
    requires
        phrases.len() > 0,
        forall|i: int|
            0 <= i < phrases.len() ==> {
                &&& (#[trigger] phrases[i]).len() >= 2
                &&& phrases[i].last() == '"'
                &&& free_of(phrases[i], ' ')
                &&& depth(phrases[i]) == 0
            },
    ensures
        forall|k: int|
            0 < k <= join(phrases, " AND "@).len() ==> !cuts(
                #[trigger] join(phrases, " AND "@).take(k),
                " OR "@,
            ),
{
    assert forall|i: int| 0 <= i < phrases.len() implies or_less(#[trigger] phrases[i]) by {
        let phrase = phrases[i];
        assert forall|k: int|
            2 <= k <= phrase.len() && depth(#[trigger] phrase.take(k)) == 0 && phrase[k - 1]
                == ' ' implies phrase[k - 2] != 'R' by {
            assert(free_of(phrase, ' '));
        }
    }
    lemma_or_less_join(phrases);
    lemma_or_less_uncut(join(phrases, " AND "@));
}

/// What the conditions of a scan for `count` terms say: every parameter is found in some column
/// that can hold prose, and the row is no test where tests are left out.
pub open spec fn scan_selects(
    truth: spec_fn(Seq<char>) -> bool,
    count: nat,
    exclude_tests: bool,
) -> bool {
    &&& exclude_tests ==> truth("n.is_test = 0"@)
    &&& forall|k: nat| 1 <= k <= count ==> #[trigger] some_column_has(truth, k)
}

proof fn lemma_column_conditions(k: nat)
    ensures
        column_conditions(k) == seq![
            asks("n.name"@, k),
            asks("n.qualified_name"@, k),
            asks("n.code_content"@, k),
            asks("n.context_string"@, k),
            asks("n.doc_comment"@, k),
        ],
        forall|i: int|
            0 <= i < column_conditions(k).len() ==> plain(#[trigger] column_conditions(k)[i])
                && column_conditions(k)[i].len() > 0 && column_conditions(k)[i].last() == '\'',
{
    let conditions = column_conditions(k);
    assert(SCAN_TEXT_COLUMNS@.len() == 5);
    assert(SCAN_TEXT_COLUMNS@[0]@ == "n.name"@);
    assert(SCAN_TEXT_COLUMNS@[1]@ == "n.qualified_name"@);
    assert(SCAN_TEXT_COLUMNS@[2]@ == "n.code_content"@);
    assert(SCAN_TEXT_COLUMNS@[3]@ == "n.context_string"@);
    assert(SCAN_TEXT_COLUMNS@[4]@ == "n.doc_comment"@);
    assert(conditions =~= seq![
        asks("n.name"@, k),
        asks("n.qualified_name"@, k),
        asks("n.code_content"@, k),
        asks("n.context_string"@, k),
        asks("n.doc_comment"@, k),
    ]);
    lemma_columns_plain();
    lemma_asks_plain("n.name"@, k);
    lemma_asks_plain("n.qualified_name"@, k);
    lemma_asks_plain("n.code_content"@, k);
    lemma_asks_plain("n.context_string"@, k);
    lemma_asks_plain("n.doc_comment"@, k);
}

proof fn lemma_join_last(parts: Seq<Seq<char>>, separator: Seq<char>)
    requires
        parts.len() > 0,
        parts.last().len() > 0,
    ensures
        join(parts, separator).len() > 0,
        join(parts, separator).last() == parts.last().last(),
{
}

proof fn lemma_join_free(parts: Seq<Seq<char>>, separator: Seq<char>, c: char)
    requires
        forall|i: int| 0 <= i < parts.len() ==> free_of(#[trigger] parts[i], c),
        free_of(separator, c),
    ensures
        free_of(join(parts, separator), c),
    decreases parts.len(),
{
    if parts.len() > 1 {
        let init = parts.drop_last();
        assert forall|i: int| 0 <= i < init.len() implies free_of(#[trigger] init[i], c) by {
            assert(init[i] == parts[i]);
        }
        lemma_join_free(init, separator, c);
        let before = join(init, separator);
        let last = parts.last();
        assert(free_of(parts[parts.len() - 1], c));
        let text = before + separator + last;
        assert forall|i: int| 0 <= i < text.len() implies #[trigger] text[i] != c by {
            if i < before.len() {
                assert(before[i] != c);
            } else if i < before.len() + separator.len() {
                assert(separator[i - before.len()] != c);
            } else {
                assert(last[i - before.len() - separator.len()] != c);
            }
        }
    } else if parts.len() == 1 {
        assert(free_of(parts[0], c));
    }
}

proof fn lemma_clause(k: nat, truth: spec_fn(Seq<char>) -> bool)
    ensures
        ({
            let clause = term_clause(k);
            &&& grouping(truth)(clause) <==> some_column_has(truth, k)
            &&& uncut(clause, " AND "@)
            &&& depth(clause) == 0
            &&& or_less(clause)
        }),
{
    lemma_separators();
    reveal_strlit("(");
    reveal_strlit(")");
    let conditions = column_conditions(k);
    let inner = join(conditions, " OR "@);
    let clause = term_clause(k);
    lemma_column_conditions(k);
    assert("("@ =~= seq!['(']);
    assert(")"@ =~= seq![')']);
    assert(clause =~= seq!['('] + inner + seq![')']);
    assert forall|i: int| 0 <= i < conditions.len() implies free_of(#[trigger] conditions[i], '(')
        && free_of(conditions[i], ')') by {
        lemma_plain_free(conditions[i]);
    }
    lemma_join_free(conditions, " OR "@, '(');
    lemma_join_free(conditions, " OR "@, ')');
    lemma_group_uncut(inner);
    lemma_join_last(conditions, " OR "@);
    assert forall|j: int|
        2 <= j <= clause.len() && depth(#[trigger] clause.take(j)) == 0 && clause[j - 1]
            == ' ' implies clause[j - 2] != 'R' by {
        if j <= inner.len() + 1 {
            assert(depth((seq!['('] + inner + seq![')']).take(j)) == 1);
        }
    }
    lemma_alternatives(conditions, truth);
    assert(clause.subrange(1, clause.len() - 1) =~= inner);
    assert(conditions[0] == asks("n.name"@, k));
    assert(conditions[1] == asks("n.qualified_name"@, k));
    assert(conditions[2] == asks("n.code_content"@, k));
    assert(conditions[3] == asks("n.context_string"@, k));
    assert(conditions[4] == asks("n.doc_comment"@, k));
}

/// The WHERE text of the scan.
spec fn scan_condition(count: nat, exclude_tests: bool) -> Seq<char> {
    join(term_clauses(count), " AND "@) + test_filter(exclude_tests)
}

proof fn lemma_scan_condition(
    count: nat,
    exclude_tests: bool,
    truth: spec_fn(Seq<char>) -> bool,
)
    requires
        count > 0,
    ensures
        condition_holds(scan_condition(count, exclude_tests), truth) <==> scan_selects(
            truth,
            count,
            exclude_tests,
        ),
{
    lemma_separators();
    reveal_strlit(" AND n.is_test = 0");
    reveal_strlit("n.is_test = 0");
    let clauses = term_clauses(count);
    let filter = "n.is_test = 0"@;
    let parts = if exclude_tests {
        clauses.push(filter)
    } else {
        clauses
    };
    let text = scan_condition(count, exclude_tests);
    let group = grouping(truth);
    assert forall|i: int| 0 <= i < clauses.len() implies {
        &&& group(#[trigger] clauses[i]) <==> some_column_has(truth, (i + 1) as nat)
        &&& uncut(clauses[i], " AND "@)
        &&& depth(clauses[i]) == 0
        &&& or_less(clauses[i])
    } by {
        lemma_clause((i + 1) as nat, truth);
    }
    lemma_depth_none(filter);
    lemma_uncut_by_mark(filter, " AND "@, 3);
    assert(" AND n.is_test = 0"@ =~= " AND "@ + filter);
    if exclude_tests {
        assert(parts.drop_last() =~= clauses);
        assert(text =~= join(clauses, " AND "@) + " AND "@ + filter);
    } else {
        assert(text =~= join(clauses, " AND "@));
    }
    assert(text == join(parts, " AND "@));
    assert forall|i: int| 0 <= i < parts.len() implies uncut(#[trigger] parts[i], " AND "@)
        && depth(parts[i]) == 0 && or_less(parts[i]) by {
        if i < clauses.len() {
            assert(parts[i] == clauses[i]);
        } else {
            assert(parts[i] == filter);
        }
    }
    lemma_pieces_of_join(parts, " AND "@);
    lemma_or_less_join(parts);
    lemma_or_less_uncut(text);
    lemma_one_piece(text, " OR "@);
    assert(pieces(text, " OR "@)[0] == text);
    assert(group(filter) == truth(filter));
    assert(flat_holds(text, group) <==> all_hold(text, group)) by {
        if all_hold(text, group) {
            assert(all_hold(pieces(text, " OR "@)[0], group));
        }
    }
    if all_hold(text, group) {
        assert forall|k: nat| 1 <= k <= count implies #[trigger] some_column_has(truth, k) by {
            assert(group(pieces(text, " AND "@)[k - 1]));
            assert(parts[k - 1] == clauses[k - 1]);
        }
        if exclude_tests {
            assert(group(pieces(text, " AND "@)[clauses.len() as int]));
        }
    }
    if scan_selects(truth, count, exclude_tests) {
        assert forall|i: int| 0 <= i < pieces(text, " AND "@).len() implies group(
            #[trigger] pieces(text, " AND "@)[i],
        ) by {
            if i < clauses.len() {
                assert(parts[i] == clauses[i]);
                assert(some_column_has(truth, (i + 1) as nat));
            }
        }
    }
}

/// The WHERE condition of a scan, however many terms it has, says that every term is found in
/// some column that can hold prose, and nothing else but that the row is no test where tests are
/// left out.
pub proof fn law_scan_requires_every_term(count: nat, exclude_tests: bool)
    requires
        count > 0,
    ensures
        exists|condition: Seq<char>, order: Seq<char>| #[trigger]
            (condition + order).len() >= 0 && scan_sql(count, exclude_tests) == "SELECT "@
                + NODE_SELECT_ALIASED@ + " FROM nodes n WHERE "@ + condition
                + " ORDER BY CASE WHEN "@ + order && forall|truth: spec_fn(Seq<char>) -> bool|
                #[trigger]
                condition_holds(condition, truth) <==> scan_selects(truth, count, exclude_tests),
{
    let condition = scan_condition(count, exclude_tests);
    let order = join(name_hits(count), " OR "@) + " THEN 0 ELSE 1 END"@ + CJK_SCAN_ORDER_TAIL@
        + " LIMIT ?"@ + decimal(count + 1);
    assert forall|truth: spec_fn(Seq<char>) -> bool| #[trigger]
        condition_holds(condition, truth) <==> scan_selects(truth, count, exclude_tests) by {
        lemma_scan_condition(count, exclude_tests, truth);
    }
    assert(scan_sql(count, exclude_tests) =~= "SELECT "@ + NODE_SELECT_ALIASED@
        + " FROM nodes n WHERE "@ + condition + " ORDER BY CASE WHEN "@ + order);
    assert((condition + order).len() >= 0);
}

proof fn lemma_name_hits(count: nat)
    ensures
        name_hits(count).len() == 2 * count,
        forall|k: nat|
            1 <= k <= count ==> {
                &&& name_hits(count)[2 * k - 2] == #[trigger] asks("n.name"@, k)
                &&& name_hits(count)[2 * k - 1] == asks("n.qualified_name"@, k)
            },
        forall|i: int| 0 <= i < name_hits(count).len() ==> plain(#[trigger] name_hits(count)[i]),
    decreases count,
{
    if count > 0 {
        let less = (count - 1) as nat;
        lemma_name_hits(less);
        lemma_columns_plain();
        lemma_asks_plain("n.name"@, count);
        lemma_asks_plain("n.qualified_name"@, count);
        let hits = name_hits(count);
        assert forall|i: int| 0 <= i < hits.len() implies plain(#[trigger] hits[i]) by {
            if i < 2 * less {
                assert(hits[i] == name_hits(less)[i]);
            }
        }
        assert forall|k: nat| 1 <= k <= count implies {
            &&& hits[2 * k - 2] == #[trigger] asks("n.name"@, k)
            &&& hits[2 * k - 1] == asks("n.qualified_name"@, k)
        } by {
            if k < count {
                assert(hits[2 * k - 2] == name_hits(less)[2 * k - 2]);
                assert(hits[2 * k - 1] == name_hits(less)[2 * k - 1]);
            }
        }
    }
}

/// The rows of a scan come in this order: those of which an identifier holds any of the terms
/// first, then the shorter bodies, then by id. The parameter behind the patterns is the limit.
pub proof fn law_scan_ranks_identifier_hits(count: nat, exclude_tests: bool)
    requires
        count > 0,
    ensures
        exists|conditions: Seq<char>, hits: Seq<char>| #[trigger]
            (conditions + hits).len() >= 0 && scan_sql(count, exclude_tests) == conditions
                + " ORDER BY CASE WHEN "@ + hits
                + " THEN 0 ELSE 1 END, LENGTH(COALESCE(n.code_content, '')), n.id LIMIT ?"@
                + decimal(count + 1) && forall|truth: spec_fn(Seq<char>) -> bool| #[trigger]
                flat_holds(hits, truth) <==> exists|k: nat|
                    1 <= k <= count && #[trigger] some_identifier_has(truth, k),
{
    let parts = name_hits(count);
    let hits = join(parts, " OR "@);
    let conditions = "SELECT "@ + NODE_SELECT_ALIASED@ + " FROM nodes n WHERE "@ + scan_condition(
        count,
        exclude_tests,
    );
    lemma_name_hits(count);
    assert forall|truth: spec_fn(Seq<char>) -> bool| #[trigger]
        flat_holds(hits, truth) <==> exists|k: nat|
            1 <= k <= count && #[trigger] some_identifier_has(truth, k) by {
        lemma_alternatives(parts, truth);
        if exists|i: int| 0 <= i < parts.len() && truth(#[trigger] parts[i]) {
            let i = choose|i: int| 0 <= i < parts.len() && truth(#[trigger] parts[i]);
            let k = (i / 2 + 1) as nat;
            assert(1 <= k <= count);
            assert(parts[2 * k - 2] == asks("n.name"@, k));
            assert(parts[2 * k - 1] == asks("n.qualified_name"@, k));
            assert(i == 2 * k - 2 || i == 2 * k - 1);
            assert(some_identifier_has(truth, k));
        }
        if exists|k: nat| 1 <= k <= count && #[trigger] some_identifier_has(truth, k) {
            let k = choose|k: nat| 1 <= k <= count && #[trigger] some_identifier_has(truth, k);
            assert(parts[2 * k - 2] == asks("n.name"@, k));
            assert(parts[2 * k - 1] == asks("n.qualified_name"@, k));
            if truth(asks("n.name"@, k)) {
                assert(truth(parts[2 * k - 2]));
            } else {
                assert(truth(parts[2 * k - 1]));
            }
        }
    }
    reveal_strlit(" THEN 0 ELSE 1 END, LENGTH(COALESCE(n.code_content, '')), n.id LIMIT ?");
    reveal_strlit(" THEN 0 ELSE 1 END");
    reveal_strlit(", LENGTH(COALESCE(n.code_content, '')), n.id");
    reveal_strlit(" LIMIT ?");
    assert(" THEN 0 ELSE 1 END, LENGTH(COALESCE(n.code_content, '')), n.id LIMIT ?"@
        =~= " THEN 0 ELSE 1 END"@ + CJK_SCAN_ORDER_TAIL@ + " LIMIT ?"@);
    assert(scan_sql(count, exclude_tests) =~= conditions + " ORDER BY CASE WHEN "@ + hits
        + " THEN 0 ELSE 1 END, LENGTH(COALESCE(n.code_content, '')), n.id LIMIT ?"@ + decimal(
        count + 1,
    ));
    assert((conditions + hits).len() >= 0);
}

/// What a database says of the parts of a scan's condition on one row: LIKE, on the row's columns
/// and the scan's patterns.
pub open spec fn reads_row(
    truth: spec_fn(Seq<char>) -> bool,
    patterns: Seq<Seq<char>>,
    row: spec_fn(Seq<char>) -> Seq<char>,
    same: spec_fn(char, char) -> bool,
) -> bool {
    forall|column: Seq<char>, k: nat|
        1 <= k <= patterns.len() ==> (truth(#[trigger] asks(column, k)) <==> like_matches(
            like_items(patterns[k - 1]),
            row(column),
            same,
        ))
}

/// Whether a text stands somewhere in another.
pub open spec fn stands_in(
    text: Seq<char>,
    part: Seq<char>,
    same: spec_fn(char, char) -> bool,
) -> bool {
    exists|at: int| stands_at(text, part, at, same)
}

/// Whether one of a row's columns that can hold prose holds a text.
pub open spec fn row_holds(
    row: spec_fn(Seq<char>) -> Seq<char>,
    text: Seq<char>,
    same: spec_fn(char, char) -> bool,
) -> bool {
    ||| stands_in(row("n.name"@), text, same)
    ||| stands_in(row("n.qualified_name"@), text, same)
    ||| stands_in(row("n.code_content"@), text, same)
    ||| stands_in(row("n.context_string"@), text, same)
    ||| stands_in(row("n.doc_comment"@), text, same)
}

/// With the patterns of a query's scan terms, a row satisfies the scan exactly where every one of
/// the terms stands in some column of it, and it is no test where tests are left out.
pub proof fn law_scan_selects_rows_with_every_term(
    query: Seq<char>,
    exclude_tests: bool,
    truth: spec_fn(Seq<char>) -> bool,
    row: spec_fn(Seq<char>) -> Seq<char>,
    same: spec_fn(char, char) -> bool,
)
    requires
        reads_row(truth, scan_terms(query).map_values(to_holding_pattern()), row, same),
    ensures
        scan_selects(truth, scan_terms(query).len(), exclude_tests) <==> (exclude_tests ==> truth(
            "n.is_test = 0"@,
        )) && forall|i: int|
            0 <= i < scan_terms(query).len() ==> row_holds(row, #[trigger] scan_terms(query)[i], same),
{
    let terms = scan_terms(query);
    let patterns = terms.map_values(to_holding_pattern());
    assert forall|i: int| 0 <= i < terms.len() implies (row_holds(row, #[trigger] terms[i], same)
        <==> some_column_has(truth, (i + 1) as nat)) by {
        let k = (i + 1) as nat;
        assert(patterns[k - 1] == holding_pattern(terms[i]));
        law_holding_pattern_is_literal(terms[i], row("n.name"@), same);
        law_holding_pattern_is_literal(terms[i], row("n.qualified_name"@), same);
        law_holding_pattern_is_literal(terms[i], row("n.code_content"@), same);
        law_holding_pattern_is_literal(terms[i], row("n.context_string"@), same);
        law_holding_pattern_is_literal(terms[i], row("n.doc_comment"@), same);
        assert(truth(asks("n.name"@, k)) <==> like_matches(
            like_items(patterns[k - 1]),
            row("n.name"@),
            same,
        ));
    }
    if scan_selects(truth, terms.len(), exclude_tests) {
        assert forall|i: int| 0 <= i < terms.len() implies row_holds(
            row,
            #[trigger] terms[i],
            same,
        ) by {
            assert(some_column_has(truth, (i + 1) as nat));
        }
    }
    if forall|i: int| 0 <= i < terms.len() ==> row_holds(row, #[trigger] terms[i], same) {
        assert forall|k: nat| 1 <= k <= terms.len() implies #[trigger] some_column_has(truth, k) by {
            assert(row_holds(row, terms[k - 1], same));
        }
    }
}

/// The condition that leaves out test symbols, or nothing.
pub open spec fn unless_tests(exclude_tests: bool) -> Seq<char> {
    if exclude_tests {
        " AND n.is_test = 0"@
    } else {
        Seq::empty()
    }
}

/// The ranked rows of an expression, in full: the columns of a node and the BM25 value with its
/// weights, of the rows that match, tests left out where that is asked, the best value first, up
/// to the limit.
pub proof fn law_match_statement(exclude_tests: bool)
    ensures
        match_sql(exclude_tests)
            == "SELECT n.id, n.file_id, n.type, n.name, n.qualified_name, n.start_line, n.end_line, n.code_content, n.signature, n.doc_comment, n.context_string, n.name_tokens, n.return_type, n.param_types, n.is_test, bm25(nodes_fts, 5.0, 3.0, 2.0, 2.0, 1.0, 5.0, 1.0, 1.0) FROM nodes_fts fts JOIN nodes n ON n.id = fts.rowid WHERE nodes_fts MATCH ?1"@
            + unless_tests(exclude_tests)
            + "\n         ORDER BY bm25(nodes_fts, 5.0, 3.0, 2.0, 2.0, 1.0, 5.0, 1.0, 1.0) LIMIT ?2"@,
{
    reveal_strlit(
        "SELECT n.id, n.file_id, n.type, n.name, n.qualified_name, n.start_line, n.end_line, n.code_content, n.signature, n.doc_comment, n.context_string, n.name_tokens, n.return_type, n.param_types, n.is_test, bm25(nodes_fts, 5.0, 3.0, 2.0, 2.0, 1.0, 5.0, 1.0, 1.0) FROM nodes_fts fts JOIN nodes n ON n.id = fts.rowid WHERE nodes_fts MATCH ?1",
    );
    reveal_strlit(
        "n.id, n.file_id, n.type, n.name, n.qualified_name, n.start_line, n.end_line, n.code_content, n.signature, n.doc_comment, n.context_string, n.name_tokens, n.return_type, n.param_types, n.is_test",
    );
    reveal_strlit("SELECT ");
    reveal_strlit(", ");
    reveal_strlit("bm25(nodes_fts, 5.0, 3.0, 2.0, 2.0, 1.0, 5.0, 1.0, 1.0)");
    reveal_strlit(
        " FROM nodes_fts fts JOIN nodes n ON n.id = fts.rowid WHERE nodes_fts MATCH ?1",
    );
    reveal_strlit("\n         ORDER BY ");
    reveal_strlit(" LIMIT ?2");
    reveal_strlit(
        "\n         ORDER BY bm25(nodes_fts, 5.0, 3.0, 2.0, 2.0, 1.0, 5.0, 1.0, 1.0) LIMIT ?2",
    );
    let head = "SELECT "@ + NODE_SELECT_ALIASED@ + ", "@ + BM25_EXPR@
        + " FROM nodes_fts fts JOIN nodes n ON n.id = fts.rowid WHERE nodes_fts MATCH ?1"@;
    let tail = "\n         ORDER BY "@ + BM25_EXPR@ + " LIMIT ?2"@;
    assert(head
        =~= "SELECT n.id, n.file_id, n.type, n.name, n.qualified_name, n.start_line, n.end_line, n.code_content, n.signature, n.doc_comment, n.context_string, n.name_tokens, n.return_type, n.param_types, n.is_test, bm25(nodes_fts, 5.0, 3.0, 2.0, 2.0, 1.0, 5.0, 1.0, 1.0) FROM nodes_fts fts JOIN nodes n ON n.id = fts.rowid WHERE nodes_fts MATCH ?1"@);
    assert(tail
        =~= "\n         ORDER BY bm25(nodes_fts, 5.0, 3.0, 2.0, 2.0, 1.0, 5.0, 1.0, 1.0) LIMIT ?2"@);
    assert(match_sql(exclude_tests) =~= head + unless_tests(exclude_tests) + tail);
}

/// Whether an expression has any row at all, in full; and the columns that a scan selects.
pub proof fn law_probe_statement(exclude_tests: bool)
    ensures
        probe_sql(exclude_tests)
            == "SELECT 1 FROM nodes_fts fts JOIN nodes n ON n.id = fts.rowid WHERE nodes_fts MATCH ?1"@
            + unless_tests(exclude_tests) + " LIMIT 1"@,
        NODE_SELECT_ALIASED@
            == "n.id, n.file_id, n.type, n.name, n.qualified_name, n.start_line, n.end_line, n.code_content, n.signature, n.doc_comment, n.context_string, n.name_tokens, n.return_type, n.param_types, n.is_test"@,
{
}

} // verus!
