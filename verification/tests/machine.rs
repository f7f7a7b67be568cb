//! Searches answered by hand: every question, every answer, every way to fail.

use code_graph_search::fuzzy::{find_functions_by_fuzzy_name, NameReply, NameRequest, NameSearch};
use code_graph_search::result::{MatchRow, NodeResult};
use code_graph_search::search::{fts5_search, fts5_search_with_tests, Reply, Request, Search};
use code_graph_search::sql::{
    match_statement, probe_statement, scan_statement, FUZZY_EDIT_DISTANCE_SQL, FUZZY_NAME_SQL,
};
use code_graph_search::suggestions::NameCandidate;

fn strings(list: &[&str]) -> Vec<String> {
    list.iter().map(|s| s.to_string()).collect()
}

fn node(id: i64) -> NodeResult {
    NodeResult {
        id,
        file_id: 1,
        node_type: "function".to_string(),
        name: format!("n{}", id),
        qualified_name: None,
        start_line: 1,
        end_line: 2,
        code_content: String::new(),
        signature: None,
        doc_comment: None,
        context_string: None,
        name_tokens: None,
        return_type: None,
        param_types: None,
        is_test: false,
    }
}

fn rows(count: i64) -> Reply {
    Reply::Rows(
        (0..count)
            .map(|i| MatchRow { node: node(i), bm25: (-1.0f64).to_bits() })
            .collect(),
    )
}

/// Words split into themselves, tokens that stand for nothing.
fn with_terms(query: &str, limit: i64) -> Search {
    let search = fts5_search(query, limit);
    let words = match search.request() {
        Some(Request::Split { words }) => words,
        other => panic!("{other:?}"),
    };
    let search = search.resume(Reply::Splits(words));
    let count = match search.request() {
        Some(Request::Expand { tokens }) => tokens.len(),
        other => panic!("{other:?}"),
    };
    search.resume(Reply::Expansions(vec![vec![]; count]))
}

fn match_expression(search: &Search) -> String {
    match search.request() {
        Some(Request::Match { expression, .. }) => expression,
        other => panic!("{other:?}"),
    }
}

fn probes(search: &Search) -> Vec<String> {
    match search.request() {
        Some(Request::Probe { expressions, .. }) => expressions,
        other => panic!("{other:?}"),
    }
}

fn failed(search: Search) -> bool {
    search.request().is_none() && search.into_result().is_none()
}

#[test]
fn the_first_questions() {
    let search = fts5_search("The db.runNow RRF", 7);
    match search.request() {
        Some(Request::Split { words }) => assert_eq!(words, strings(&["db", "runNow", "RRF"])),
        other => panic!("{other:?}"),
    }
    let search = search.resume(Reply::Splits(strings(&["db", "run Now runNow", "RRF"])));
    match search.request() {
        Some(Request::Expand { tokens }) => {
            assert_eq!(tokens, strings(&["db", "run", "Now", "runNow", "RRF"]))
        }
        other => panic!("{other:?}"),
    }
    let none: Vec<String> = vec![];
    let search = search.resume(Reply::Expansions(vec![
        none.clone(),
        none.clone(),
        none.clone(),
        none.clone(),
        strings(&["rank", "fusion"]),
    ]));
    match search.request() {
        Some(Request::Match { sql, expression, limit }) => {
            assert_eq!(sql, match_statement(true));
            assert_eq!(
                expression,
                "\"Now\" AND \"RRF\" AND \"db\" AND \"fusion\" AND \"rank\" AND \"run\" AND \"runNow\""
            );
            assert_eq!(limit, 7);
        }
        other => panic!("{other:?}"),
    }
    assert!(search.into_result().is_none());
}

#[test]
fn three_rows_are_enough_and_two_are_not() {
    let r = with_terms("parse json", 20).resume(rows(3)).into_result().unwrap();
    assert_eq!(r.nodes.len(), 3);
    assert!(!r.or_fallback);

    let search = with_terms("parse json", 20).resume(rows(2));
    assert_eq!(match_expression(&search), "\"json\" OR \"parse\"");
    let r = search.resume(rows(1)).into_result().unwrap();
    assert_eq!(r.nodes.len(), 1);
    assert!(r.or_fallback);
}

#[test]
fn listed_words_are_widened_at_once() {
    let search = with_terms("parse json", 20).resume(rows(0));
    assert_eq!(match_expression(&search), "\"json\" OR \"parse\"");
    // Nothing at all: not called widened, and not scanned for.
    let r = search.resume(rows(0)).into_result().unwrap();
    assert!(r.nodes.is_empty() && !r.or_fallback && r.empty_reason.is_none());
}

#[test]
fn a_single_term_is_matched_once() {
    let search = with_terms("parse", 20);
    assert_eq!(match_expression(&search), "\"parse\"");
    let r = search.resume(rows(1)).into_result().unwrap();
    assert!(!r.or_fallback);
}

#[test]
fn pieces_that_the_index_lacks_are_dropped() {
    let search = with_terms("name:run.fast", 20).resume(rows(0));
    match search.request() {
        Some(Request::Probe { sql, .. }) => assert_eq!(sql, probe_statement(true)),
        other => panic!("{other:?}"),
    }
    assert_eq!(probes(&search), strings(&["\"fast\"", "\"name\"", "\"run\""]));
    // A lookup that failed counts as absent.
    let search = search.resume(Reply::Probed(vec![Some(true), None, Some(true)]));
    assert_eq!(match_expression(&search), "\"fast\" AND \"run\"");
    let r = search.resume(rows(1)).into_result().unwrap();
    assert!(r.or_fallback);
    assert_eq!(r.nodes.len(), 1);
}

#[test]
fn pieces_that_never_meet_find_nothing() {
    for found in [
        vec![Some(true), Some(true)],
        vec![Some(false), Some(false)],
        vec![None, None],
    ] {
        let search = with_terms("--prune-vector", 20).resume(rows(0));
        let r = search.resume(Reply::Probed(found)).into_result().unwrap();
        assert!(r.nodes.is_empty() && !r.or_fallback && r.empty_reason.is_none());
    }
    let search = with_terms("--prune-vector", 20).resume(rows(0));
    let search = search.resume(Reply::Probed(vec![Some(true), Some(false)]));
    let r = search.resume(rows(0)).into_result().unwrap();
    assert!(r.nodes.is_empty() && !r.or_fallback);
}

fn split_word(query: &str, parts: &str) -> Search {
    let search = fts5_search(query, 20).resume(Reply::Splits(strings(&[parts])));
    let count = match search.request() {
        Some(Request::Expand { tokens }) => tokens.len(),
        other => panic!("{other:?}"),
    };
    search.resume(Reply::Expansions(vec![vec![]; count]))
}

#[test]
fn one_word_is_widened_only_if_the_index_knows_it() {
    let search = split_word("runNow", "run Now runNow").resume(rows(0));
    assert_eq!(probes(&search), strings(&["\"runNow\""]));
    let search = search.resume(Reply::Probed(vec![Some(true)]));
    assert_eq!(match_expression(&search), "\"Now\" OR \"run\" OR \"runNow\"");

    let search = split_word("runNow", "run Now runNow").resume(rows(0));
    let r = search.resume(Reply::Probed(vec![Some(false)])).into_result().unwrap();
    assert!(r.nodes.is_empty() && r.empty_reason.is_none());

    // Here a lookup that failed is a failure.
    let search = split_word("runNow", "run Now runNow").resume(rows(0));
    assert!(failed(search.resume(Reply::Probed(vec![None]))));
}

#[test]
fn a_word_too_short_to_look_up_is_widened() {
    // One typed character that stands for two words.
    let search = fts5_search("q", 20).resume(Reply::Splits(strings(&["q"])));
    let search = search.resume(Reply::Expansions(vec![strings(&["query", "queue"])]));
    let search = search.resume(rows(0));
    assert_eq!(match_expression(&search), "\"query\" OR \"queue\"");
}

#[test]
fn an_empty_match_is_scanned_for() {
    let search = with_terms("订单 pay 库存", 9).resume(rows(0)).resume(rows(0));
    match search.request() {
        Some(Request::Scan { sql, patterns, limit }) => {
            assert_eq!(sql, scan_statement(2, true));
            assert_eq!(patterns, strings(&["%库存%", "%订单%"]));
            assert_eq!(limit, 9);
        }
        other => panic!("{other:?}"),
    }
    let r = search
        .resume(Reply::Nodes(vec![node(5), node(3)]))
        .into_result()
        .unwrap();
    let ids: Vec<i64> = r.nodes.iter().map(|n| n.id).collect();
    assert_eq!(ids, vec![5, 3]);
    assert!(r.cjk_substring_fallback && !r.or_fallback);
}

#[test]
fn the_scan_takes_at_most_so_many_terms() {
    let query = |count: u32| -> String {
        (0..count)
            .map(|i| format!("{} ", char::from_u32(0x4E00 + i).unwrap()))
            .collect()
    };
    let search = with_terms(&query(32), 9).resume(rows(0)).resume(rows(0));
    assert!(matches!(search.request(), Some(Request::Scan { .. })));
    let search = with_terms(&query(33), 9).resume(rows(0)).resume(rows(0));
    let r = search.into_result().unwrap();
    assert!(r.nodes.is_empty() && !r.cjk_substring_fallback && r.empty_reason.is_none());
}

#[test]
fn tests_are_left_out_unless_asked_for() {
    let none: Vec<String> = vec![];
    let search = fts5_search_with_tests("订单", -1)
        .resume(Reply::Splits(strings(&["订单"])))
        .resume(Reply::Expansions(vec![none]));
    match search.request() {
        Some(Request::Match { sql, limit, .. }) => {
            assert_eq!(sql, match_statement(false));
            assert_eq!(limit, -1);
        }
        other => panic!("{other:?}"),
    }
    let search = search.resume(rows(0));
    match search.request() {
        Some(Request::Scan { sql, .. }) => assert_eq!(sql, scan_statement(1, false)),
        other => panic!("{other:?}"),
    }
}

#[test]
fn failed_answers_fail_the_search() {
    assert!(failed(fts5_search("run", 5).resume(Reply::Failed)));
    assert!(failed(with_terms("parse json", 5).resume(Reply::Failed)));
    assert!(failed(with_terms("parse json", 5).resume(rows(0)).resume(Reply::Failed)));
    assert!(failed(with_terms("a.b:parse.json", 5).resume(rows(0)).resume(Reply::Failed)));
    let scanning = with_terms("订单", 5).resume(rows(0));
    assert!(matches!(scanning.request(), Some(Request::Scan { .. })));
    assert!(failed(scanning.resume(Reply::Failed)));
    // A failed search stays failed.
    assert!(failed(fts5_search("run", 5).resume(Reply::Failed).resume(rows(3))));
}

#[test]
fn answers_to_another_question_fail_the_search() {
    assert!(failed(fts5_search("run", 5).resume(rows(1))));
    assert!(failed(fts5_search("run", 5).resume(Reply::Splits(vec![]))));
    let expanding = fts5_search("run", 5).resume(Reply::Splits(strings(&["run"])));
    assert!(failed(expanding.resume(Reply::Expansions(vec![]))));
    assert!(failed(with_terms("parse json", 5).resume(Reply::Nodes(vec![node(1)]))));
    let probing = with_terms("--prune-vector", 5).resume(rows(0));
    assert!(failed(probing.resume(Reply::Probed(vec![Some(true)]))));
    let probing = split_word("runNow", "run Now runNow").resume(rows(0));
    assert!(failed(probing.resume(Reply::Probed(vec![Some(true), Some(true)]))));
}

#[test]
fn a_finished_search_stays_as_it_is() {
    let search = with_terms("parse json", 5).resume(rows(4)).resume(Reply::Failed);
    assert_eq!(search.into_result().unwrap().nodes.len(), 4);
}

#[test]
fn the_longest_search_asks_six_questions() {
    let mut search = fts5_search("订单.库存", 5);
    let none: Vec<String> = vec![];
    let replies = vec![
        Reply::Splits(strings(&["订单", "库存"])),
        Reply::Expansions(vec![none.clone(), none]),
        rows(0),
        Reply::Probed(vec![Some(true), Some(false)]),
        rows(0),
        Reply::Nodes(vec![]),
    ];
    assert_eq!(replies.len(), 6);
    for reply in replies {
        assert!(search.request().is_some());
        search = search.resume(reply);
    }
    assert!(search.request().is_none());
    let r = search.into_result().unwrap();
    assert!(r.nodes.is_empty() && !r.is_widened_match());
}

fn candidate(name: &str) -> NameCandidate {
    NameCandidate {
        name: name.to_string(),
        file_path: "f".to_string(),
        node_type: "function".to_string(),
        node_id: 1,
        start_line: 1,
    }
}

fn matching(typed: &str, tokens: &str) -> NameSearch {
    find_functions_by_fuzzy_name(typed).resume(NameReply::Tokens(tokens.to_string()))
}

#[test]
fn a_name_search_asks_in_order() {
    let search = find_functions_by_fuzzy_name("a_c%");
    match search.request() {
        Some(NameRequest::Tokens { name }) => assert_eq!(name, "a_c%"),
        other => panic!("{other:?}"),
    }
    let search = search.resume(NameReply::Tokens("a c%".to_string()));
    match search.request() {
        Some(NameRequest::Names { sql, parameters }) => {
            assert_eq!(sql, FUZZY_NAME_SQL);
            assert_eq!(
                parameters,
                strings(&["%a\\_c\\%%", "a_c%", "%a c\\%%", "a\\_c\\%"])
            );
        }
        other => panic!("{other:?}"),
    }
    let search = search.resume(NameReply::Candidates(vec![]));
    match search.request() {
        Some(NameRequest::Pool { sql }) => assert_eq!(sql, FUZZY_EDIT_DISTANCE_SQL),
        other => panic!("{other:?}"),
    }
    let search = search.resume(NameReply::Candidates(vec![candidate("zzzz"), candidate("a_c")]));
    assert!(search.request().is_none());
    let found = search.into_result().unwrap();
    assert_eq!(found.len(), 1);
    assert_eq!(found[0].name, "a_c");
}

#[test]
fn names_that_hold_the_text_are_returned_as_they_are() {
    let search = matching("run", "run");
    let search = search.resume(NameReply::Candidates(vec![candidate("zz"), candidate("run")]));
    assert!(search.request().is_none());
    let names: Vec<String> = search
        .into_result()
        .unwrap()
        .into_iter()
        .map(|c| c.name)
        .collect();
    assert_eq!(names, strings(&["zz", "run"]));
}

#[test]
fn failed_name_searches() {
    let failed = |s: NameSearch| s.request().is_none() && s.into_result().is_none();
    assert!(failed(find_functions_by_fuzzy_name("run").resume(NameReply::Failed)));
    assert!(failed(matching("run", "run").resume(NameReply::Failed)));
    let correcting = matching("run", "run").resume(NameReply::Candidates(vec![]));
    assert!(failed(correcting.resume(NameReply::Failed)));
    assert!(failed(find_functions_by_fuzzy_name("run").resume(NameReply::Candidates(vec![]))));
    assert!(failed(matching("run", "run").resume(NameReply::Tokens("x".to_string()))));
    let done = matching("run", "run").resume(NameReply::Candidates(vec![candidate("run")]));
    assert_eq!(done.resume(NameReply::Failed).into_result().unwrap().len(), 1);
}
