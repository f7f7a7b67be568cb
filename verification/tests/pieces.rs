//! The pieces of a search, each on concrete values.

use code_graph_search::classes::{is_term_char, is_unsegmented_script, CharClass};
use code_graph_search::distance::levenshtein;
use code_graph_search::like::{escape_like, pattern_holding, patterns_holding};
use code_graph_search::order::{comes_before, sort_distinct};
use code_graph_search::result::{find_nothing, rank, report_scan, MatchRow, NodeResult};
use code_graph_search::runs::runs_of;
use code_graph_search::sql::{
    allow_any, join_strings, match_statement, probe_statement, quote, quote_all, require_all,
    scan_statement, BM25_EXPR, FUZZY_EDIT_DISTANCE_SQL, FUZZY_NAME_SQL, NODE_SELECT_ALIASED,
};
use code_graph_search::suggestions::{suggest, NameCandidate};
use code_graph_search::terms::{
    collect_match_terms, collect_scan_terms, collect_tokens, copy_strings, count_user_words,
    explain_no_terms, is_stop_word, sanitize, searchable_words, FTS_STOP_WORDS,
};
use code_graph_search::text::{byte_len_of, chars_of, same_text};

fn strings(list: &[&str]) -> Vec<String> {
    list.iter().map(|s| s.to_string()).collect()
}

fn node(id: i64) -> NodeResult {
    NodeResult {
        id,
        file_id: 1,
        node_type: "function".to_string(),
        name: format!("n{}", id),
        qualified_name: None,
        start_line: 1,
        end_line: 2,
        code_content: String::new(),
        signature: None,
        doc_comment: None,
        context_string: None,
        name_tokens: None,
        return_type: None,
        param_types: None,
        is_test: false,
    }
}

fn candidate(name: &str, id: i64) -> NameCandidate {
    NameCandidate {
        name: name.to_string(),
        file_path: "f".to_string(),
        node_type: "function".to_string(),
        node_id: id,
        start_line: id,
    }
}

fn ids(found: &[NameCandidate]) -> Vec<i64> {
    found.iter().map(|c| c.node_id).collect()
}

#[test]
fn term_characters() {
    for c in ['a', 'Z', '0', '_', 'é', 'ß', '订', 'ん', '٣'] {
        assert!(is_term_char(c), "{c}");
    }
    for c in [' ', '-', '.', ':', '"', '*', '(', '\u{3000}', '・', '—'] {
        assert!(!is_term_char(c), "{c}");
    }
}

#[test]
fn white_space_is_no_term_character() {
    let mut count = 0;
    for c in (0..=0x10FFFFu32).filter_map(char::from_u32) {
        if c.is_whitespace() {
            assert!(!is_term_char(c), "{:?}", c);
            assert!(!CharClass::NonSpace.has(c));
            count += 1;
        }
    }
    assert_eq!(count, 25);
}

#[test]
fn unsegmented_scripts_by_their_edges() {
    for (first, last) in [
        (0x3040u32, 0x30FFu32),
        (0x3400, 0x4DBF),
        (0x4E00, 0x9FFF),
        (0xAC00, 0xD7AF),
        (0xF900, 0xFAFF),
        (0xFF66, 0xFF9D),
        (0x20000, 0x2A6DF),
        (0x2A700, 0x2EBEF),
    ] {
        assert!(is_unsegmented_script(char::from_u32(first).unwrap()));
        assert!(is_unsegmented_script(char::from_u32(last).unwrap()));
        assert!(!is_unsegmented_script(char::from_u32(first - 1).unwrap()));
        assert!(!is_unsegmented_script(char::from_u32(last + 1).unwrap()));
    }
    for c in ['a', '_', 'é', 'ก', 'ㄱ', '\u{FF65}'] {
        assert!(!is_unsegmented_script(c), "{c}");
    }
}

#[test]
fn runs_are_cut_at_what_is_not_in_the_class() {
    assert_eq!(
        runs_of("db.execute(a_b) !", CharClass::Term),
        strings(&["db", "execute", "a_b"])
    );
    assert_eq!(runs_of("", CharClass::Term), strings(&[]));
    assert_eq!(runs_of("...", CharClass::Term), strings(&[]));
    assert_eq!(
        runs_of("订单x库存", CharClass::UnsegmentedScript),
        strings(&["订单", "库存"])
    );
    assert_eq!(
        runs_of("  a\u{00A0}b\u{3000}c\td\u{200B}e\n", CharClass::NonSpace),
        strings(&["a", "b", "c", "d\u{200B}e"])
    );
}

#[test]
fn text_order_is_that_of_strings() {
    for (a, b) in [("", "a"), ("a", "b"), ("a", "ab"), ("Z", "a"), ("库", "订"), ("\u{FFFD}", "\u{10000}")] {
        assert!(comes_before(a, b));
        assert!(!comes_before(b, a));
        assert!(a < b);
    }
    assert!(!comes_before("ab", "ab"));
    let mut given = strings(&["b", "a", "订", "b", "", "库", "B", "ab"]);
    let sorted = sort_distinct(given.iter().cloned().collect());
    given.sort();
    given.dedup();
    assert_eq!(sorted, given);
}

#[test]
fn texts_by_character_and_byte() {
    assert_eq!(chars_of("aé订"), vec!['a', 'é', '订']);
    assert_eq!(byte_len_of("aé订"), 6);
    assert!(same_text("订单", "订单"));
    assert!(!same_text("订单", "订"));
    assert!(!same_text("a", "A"));
    assert_eq!(copy_strings(&strings(&["x", ""])), strings(&["x", ""]));
}

#[test]
fn edit_distance_is_a_metric() {
    let words = ["", "a", "abc", "acb", "kitten", "sitting", "订单", "订库单", "naïve", "naive"];
    for a in words {
        assert_eq!(levenshtein(a, a), 0);
        for b in words {
            let d = levenshtein(a, b);
            assert_eq!(d, levenshtein(b, a));
            assert_eq!(d == 0, a == b);
            for c in words {
                assert!(d <= levenshtein(a, c) + levenshtein(c, b));
            }
        }
    }
    assert_eq!(levenshtein("订单", "订库单"), 1);
    assert_eq!(levenshtein("naïve", "naive"), 1);
    assert_eq!(levenshtein("abc", "acb"), 2);
}

#[test]
fn stop_words_in_any_case() {
    for word in FTS_STOP_WORDS {
        assert!(is_stop_word(word));
        assert!(is_stop_word(&word.to_uppercase()));
    }
    assert_eq!(FTS_STOP_WORDS.len(), 29);
    for word in ["", "token", "not", "And_", "über", "İn"] {
        assert!(!is_stop_word(word), "{word}");
    }
}

#[test]
fn sanitizing_keeps_term_characters() {
    assert_eq!(sanitize("a-b_c\" OR é订!"), "ab_cORé订");
    assert_eq!(sanitize("***"), "");
    assert_eq!(sanitize("plain"), "plain");
}

#[test]
fn words_and_user_words() {
    let raw = runs_of("The db.execute of --no-default", CharClass::Term);
    assert_eq!(raw, strings(&["The", "db", "execute", "of", "no", "default"]));
    assert_eq!(searchable_words(&raw), strings(&["db", "execute", "no", "default"]));
    assert_eq!(count_user_words("The db.execute of --no-default"), 2);
    assert_eq!(count_user_words("--no-default-features"), 1);
    assert_eq!(count_user_words("!!! the ---"), 0);
    assert_eq!(count_user_words("a\u{3000}b\u{2028}payment"), 2);
}

#[test]
fn tokens_and_match_terms() {
    let tokens = collect_tokens(&strings(&["validate Token validateToken", "", " x "]));
    assert_eq!(tokens, strings(&["validate", "Token", "validateToken", "x"]));
    let expansions = vec![
        strings(&[]),
        strings(&["to-ken", "validate"]),
        strings(&[]),
        strings(&["*"]),
    ];
    // In the order of the words, those that are too short left out, what sanitizing makes equal
    // kept twice.
    assert_eq!(
        collect_match_terms(tokens, expansions),
        strings(&["Token", "token", "validate", "validateToken"])
    );
    assert_eq!(
        collect_match_terms(strings(&["a-b", "ab", "é", "x"]), vec![]),
        strings(&["ab", "ab", "é"])
    );
}

#[test]
fn scan_terms_are_sorted_runs() {
    assert_eq!(
        collect_scan_terms("订单 pay 库存,订单x中"),
        strings(&["中", "库存", "订单"])
    );
    assert_eq!(collect_scan_terms("only latin"), strings(&[]));
    // Each lies within a term of the query, unless the script has punctuation of its own.
    assert_eq!(runs_of("订单x库存", CharClass::Term), strings(&["订单x库存"]));
    assert_eq!(collect_scan_terms("ア・イ"), strings(&["ア・イ"]));
    assert_eq!(runs_of("ア・イ", CharClass::Term), strings(&["ア", "イ"]));
}

#[test]
fn reasons_for_nothing() {
    let none: Vec<String> = vec![];
    let some = strings(&["x"]);
    assert_eq!(explain_no_terms(&none, &none), "the query has no searchable characters");
    assert_eq!(explain_no_terms(&some, &none), "every word in the query is a stop word");
    assert_eq!(
        explain_no_terms(&some, &some),
        "every term is shorter than the 2-character minimum the index tokenizer stores"
    );
}

#[test]
fn expressions_quote_every_term() {
    let terms = strings(&["NOT", "run", "订单"]);
    assert_eq!(quote("NEAR"), "\"NEAR\"");
    assert_eq!(quote_all(&terms), strings(&["\"NOT\"", "\"run\"", "\"订单\""]));
    assert_eq!(require_all(&terms), "\"NOT\" AND \"run\" AND \"订单\"");
    assert_eq!(allow_any(&terms), "\"NOT\" OR \"run\" OR \"订单\"");
    assert_eq!(require_all(&strings(&["one"])), "\"one\"");
    assert_eq!(join_strings(&strings(&["a", "", "c"]), "--"), "a----c");
    assert_eq!(join_strings(&vec![], "--"), "");
}

#[test]
fn statements_in_full() {
    assert_eq!(
        match_statement(true),
        format!(
            "SELECT {}, {} FROM nodes_fts fts JOIN nodes n ON n.id = fts.rowid \
             WHERE nodes_fts MATCH ?1 AND n.is_test = 0\n         ORDER BY {} LIMIT ?2",
            NODE_SELECT_ALIASED, BM25_EXPR, BM25_EXPR
        )
    );
    assert!(!match_statement(false).contains("is_test = 0"));
    assert_eq!(
        probe_statement(true),
        "SELECT 1 FROM nodes_fts fts JOIN nodes n ON n.id = fts.rowid \
         WHERE nodes_fts MATCH ?1 AND n.is_test = 0 LIMIT 1"
    );
    assert_eq!(
        probe_statement(false),
        "SELECT 1 FROM nodes_fts fts JOIN nodes n ON n.id = fts.rowid \
         WHERE nodes_fts MATCH ?1 LIMIT 1"
    );
    assert_eq!(
        scan_statement(2, true),
        format!(
            "SELECT {} FROM nodes n WHERE \
             (n.name LIKE ?1 ESCAPE '\\' OR n.qualified_name LIKE ?1 ESCAPE '\\' \
             OR n.code_content LIKE ?1 ESCAPE '\\' OR n.context_string LIKE ?1 ESCAPE '\\' \
             OR n.doc_comment LIKE ?1 ESCAPE '\\') AND \
             (n.name LIKE ?2 ESCAPE '\\' OR n.qualified_name LIKE ?2 ESCAPE '\\' \
             OR n.code_content LIKE ?2 ESCAPE '\\' OR n.context_string LIKE ?2 ESCAPE '\\' \
             OR n.doc_comment LIKE ?2 ESCAPE '\\') AND n.is_test = 0 ORDER BY CASE WHEN \
             n.name LIKE ?1 ESCAPE '\\' OR n.qualified_name LIKE ?1 ESCAPE '\\' OR \
             n.name LIKE ?2 ESCAPE '\\' OR n.qualified_name LIKE ?2 ESCAPE '\\' \
             THEN 0 ELSE 1 END, LENGTH(COALESCE(n.code_content, '')), n.id LIMIT ?3",
            NODE_SELECT_ALIASED
        )
    );
    assert!(scan_statement(32, false).ends_with(" LIMIT ?33"));
    assert!(scan_statement(32, false).contains("n.name LIKE ?32 ESCAPE"));
}

#[test]
fn both_name_passes_leave_out_the_same() {
    for sql in [FUZZY_NAME_SQL, FUZZY_EDIT_DISTANCE_SQL] {
        assert!(sql.contains("n.type != 'module'"));
        assert!(sql.contains("f.path <> '<external>'"));
    }
}

#[test]
fn like_patterns_escape_wildcards() {
    assert_eq!(escape_like("a_c%\\x"), "a\\_c\\%\\\\x");
    assert_eq!(escape_like("订单"), "订单");
    assert_eq!(pattern_holding("50%"), "%50\\%%");
    assert_eq!(pattern_holding(""), "%%");
    assert_eq!(patterns_holding(&strings(&["订", "_"])), strings(&["%订%", "%\\_%"]));
}

#[test]
fn ranked_rows_keep_their_order_and_negate_their_scores() {
    let rows = vec![
        MatchRow { node: node(4), bm25: (-2.5f64).to_bits() },
        MatchRow { node: node(2), bm25: (-0.25f64).to_bits() },
        MatchRow { node: node(9), bm25: 1.5f64.to_bits() },
    ];
    let r = rank(rows, true);
    let order: Vec<i64> = r.nodes.iter().map(|n| n.id).collect();
    assert_eq!(order, vec![4, 2, 9]);
    let scores: Vec<f64> = r.bm25_scores.iter().map(|b| f64::from_bits(*b)).collect();
    assert_eq!(scores, vec![2.5, 0.25, -1.5]);
    assert!(r.or_fallback && !r.cjk_substring_fallback && r.empty_reason.is_none());
}

#[test]
fn scanned_and_empty_results() {
    let r = report_scan(vec![node(1), node(2)]);
    assert_eq!(r.nodes.len(), 2);
    assert_eq!(r.bm25_scores, vec![0.0f64.to_bits(), 0.0f64.to_bits()]);
    assert!(r.cjk_substring_fallback && !r.or_fallback);
    let r = report_scan(vec![]);
    assert!(r.nodes.is_empty() && !r.cjk_substring_fallback);
    let r = find_nothing(Some("why"));
    assert_eq!(r.empty_reason, Some("why"));
    assert!(!r.is_widened_match());
}

#[test]
fn suggestions_rank_by_edits_then_length_then_order() {
    let pool = vec![
        candidate("parserx", 1),
        candidate("parse", 2),
        candidate("PARSER", 3),
        candidate("parsed", 4),
        candidate("Farser", 5),
        candidate("unrelated", 6),
        candidate("arser", 7),
    ];
    // "PARSER" is no edit away; the shorter of those one edit away come first, in pool order.
    assert_eq!(ids(&suggest("parser", pool)), vec![3, 2, 7, 4, 5, 1]);
}

#[test]
fn allowed_edits_grow_with_what_was_typed() {
    let pool = |names: &[&str]| -> Vec<NameCandidate> {
        names.iter().enumerate().map(|(i, n)| candidate(n, i as i64)).collect()
    };
    assert_eq!(ids(&suggest("abc", pool(&["abd", "axx"]))), vec![0]);
    assert_eq!(ids(&suggest("abcd", pool(&["abxy", "axyz"]))), vec![0]);
    assert_eq!(ids(&suggest("abcdefg", pool(&["abcdexy", "abcdxyz"]))), vec![0]);
    assert_eq!(ids(&suggest("abcdefgh", pool(&["abcdexyz", "abcdwxyz"]))), vec![0]);
    // Counted in bytes: two characters of three bytes each.
    assert_eq!(ids(&suggest("订单", pool(&["库存", "订单单单"]))), vec![0, 1]);
    assert_eq!(ids(&suggest("", pool(&["a", "ab"]))), vec![0]);
}

#[test]
fn at_most_ten_suggestions() {
    let pool: Vec<NameCandidate> = (0..14).map(|i| candidate("handle", 100 - i)).collect();
    let found = suggest("handla", pool);
    let expected: Vec<i64> = (0..10).map(|i| 100 - i).collect();
    assert_eq!(ids(&found), expected);
}

#[test]
fn every_near_name_is_suggested_once() {
    let pool = vec![
        candidate("handle", 5),
        candidate("other_name", 1),
        candidate("handled", 4),
        candidate("handle", 2),
        candidate("hundle", 3),
    ];
    let mut found = ids(&suggest("handle", pool));
    assert_eq!(found, vec![5, 2, 3, 4]);
    found.sort();
    found.dedup();
    assert_eq!(found.len(), 4);
}

#[test]
fn lower_case_of_both_sides_counts() {
    assert_eq!(ids(&suggest("ÄRGER", vec![candidate("ärger", 1)])), vec![1]);
    assert_eq!(ids(&suggest("xy", vec![candidate("XYZ", 1), candidate("QRS", 2)])), vec![1]);
}
