//! Searches against a real database: an in-memory one with a full-text index.

use code_graph_search::distance::levenshtein;
use code_graph_search::fuzzy::{NameReply, NameRequest};
use code_graph_search::index::CJK_SCAN_MAX_TERMS;
use code_graph_search::result::{FtsResult, MatchRow, NodeResult};
use code_graph_search::search::{Reply, Request, Search};
use code_graph_search::sql::{CJK_SCAN_ORDER_TAIL, FUZZY_EDIT_DISTANCE_SQL};
use code_graph_search::suggestions::NameCandidate;
use rusqlite::Connection;

struct FileRecord {
    path: String,
    blake3_hash: String,
    last_modified: i64,
    language: Option<String>,
}

struct NodeRecord {
    file_id: i64,
    node_type: String,
    name: String,
    qualified_name: Option<String>,
    start_line: i64,
    end_line: i64,
    code_content: String,
    signature: Option<String>,
    doc_comment: Option<String>,
    context_string: Option<String>,
    name_tokens: Option<String>,
    return_type: Option<String>,
    param_types: Option<String>,
    is_test: bool,
}

struct Database {
    conn: Connection,
}

impl Database {
    fn conn(&self) -> &Connection {
        &self.conn
    }
}

const SCHEMA: &str = "
    CREATE TABLE files (
        id INTEGER PRIMARY KEY,
        path TEXT NOT NULL UNIQUE,
        blake3_hash TEXT NOT NULL,
        last_modified INTEGER NOT NULL,
        language TEXT
    );
    CREATE TABLE nodes (
        id INTEGER PRIMARY KEY,
        file_id INTEGER NOT NULL REFERENCES files(id),
        type TEXT NOT NULL,
        name TEXT NOT NULL,
        qualified_name TEXT,
        start_line INTEGER NOT NULL,
        end_line INTEGER NOT NULL,
        code_content TEXT NOT NULL,
        signature TEXT,
        doc_comment TEXT,
        context_string TEXT,
        name_tokens TEXT,
        return_type TEXT,
        param_types TEXT,
        is_test INTEGER NOT NULL DEFAULT 0
    );
    CREATE VIRTUAL TABLE nodes_fts USING fts5(
        name, qualified_name, code_content, context_string,
        doc_comment, name_tokens, return_type, param_types,
        tokenize = 'porter unicode61'
    );
";

fn test_db() -> (Database, ()) {
    let conn = Connection::open_in_memory().unwrap();
    conn.execute_batch(SCHEMA).unwrap();
    (Database { conn }, ())
}

fn upsert_file(conn: &Connection, file: &FileRecord) -> rusqlite::Result<i64> {
    conn.execute(
        "INSERT INTO files (path, blake3_hash, last_modified, language) VALUES (?1, ?2, ?3, ?4)",
        (
            &file.path,
            &file.blake3_hash,
            file.last_modified,
            &file.language,
        ),
    )?;
    Ok(conn.last_insert_rowid())
}

fn insert_node(conn: &Connection, node: &NodeRecord) -> rusqlite::Result<i64> {
    conn.execute(
        "INSERT INTO nodes (file_id, type, name, qualified_name, start_line, end_line, \
         code_content, signature, doc_comment, context_string, name_tokens, return_type, \
         param_types, is_test) \
         VALUES (?1, ?2, ?3, ?4, ?5, ?6, ?7, ?8, ?9, ?10, ?11, ?12, ?13, ?14)",
        (
            node.file_id,
            &node.node_type,
            &node.name,
            &node.qualified_name,
            node.start_line,
            node.end_line,
            &node.code_content,
            &node.signature,
            &node.doc_comment,
            &node.context_string,
            &node.name_tokens,
            &node.return_type,
            &node.param_types,
            node.is_test,
        ),
    )?;
    let id = conn.last_insert_rowid();
    conn.execute(
        "INSERT INTO nodes_fts (rowid, name, qualified_name, code_content, context_string, \
         doc_comment, name_tokens, return_type, param_types) \
         VALUES (?1, ?2, ?3, ?4, ?5, ?6, ?7, ?8, ?9)",
        (
            id,
            &node.name,
            &node.qualified_name,
            &node.code_content,
            &node.context_string,
            &node.doc_comment,
            &node.name_tokens,
            &node.return_type,
            &node.param_types,
        ),
    )?;
    Ok(id)
}

/// The camelCase and snake_case parts of an identifier, between spaces.
fn split_identifier_tokens(name: &str) -> String {
    let mut parts: Vec<String> = Vec::new();
    let mut part = String::new();
    let mut before_lower = false;
    for c in name.chars() {
        if c == '_' || (c.is_uppercase() && before_lower) {
            if !part.is_empty() {
                parts.push(std::mem::take(&mut part));
            }
        }
        if c != '_' {
            part.push(c);
        }
        before_lower = c.is_lowercase() || c.is_numeric();
    }
    if !part.is_empty() {
        parts.push(part);
    }
    parts.join(" ")
}

/// The parts of an identifier and the identifier itself, between spaces.
fn split_identifier(name: &str) -> String {
    let parts = split_identifier_tokens(name);
    if parts == name {
        parts
    } else {
        format!("{} {}", parts, name)
    }
}

fn expand_acronym(token: &str) -> Vec<String> {
    let full: &[&str] = match token.to_lowercase().as_str() {
        "rrf" => &["reciprocal", "rank", "fusion"],
        "fts" => &["full", "text", "search"],
        _ => &[],
    };
    full.iter().map(|s| s.to_string()).collect()
}

fn node_of(row: &rusqlite::Row<'_>) -> rusqlite::Result<NodeResult> {
    Ok(NodeResult {
        id: row.get(0)?,
        file_id: row.get(1)?,
        node_type: row.get(2)?,
        name: row.get(3)?,
        qualified_name: row.get(4)?,
        start_line: row.get(5)?,
        end_line: row.get(6)?,
        code_content: row.get(7)?,
        signature: row.get(8)?,
        doc_comment: row.get(9)?,
        context_string: row.get(10)?,
        name_tokens: row.get(11)?,
        return_type: row.get(12)?,
        param_types: row.get(13)?,
        is_test: row.get(14)?,
    })
}

fn candidate_of(row: &rusqlite::Row<'_>) -> rusqlite::Result<NameCandidate> {
    Ok(NameCandidate {
        name: row.get(0)?,
        file_path: row.get(1)?,
        node_type: row.get(2)?,
        node_id: row.get(3)?,
        start_line: row.get(4)?,
    })
}

fn answer(conn: &Connection, request: Request) -> rusqlite::Result<Reply> {
    Ok(match request {
        Request::Split { words } => {
            Reply::Splits(words.iter().map(|w| split_identifier(w)).collect())
        }
        Request::Expand { tokens } => {
            Reply::Expansions(tokens.iter().map(|t| expand_acronym(t)).collect())
        }
        Request::Match {
            sql,
            expression,
            limit,
        } => {
            let mut stmt = conn.prepare(&sql)?;
            let rows = stmt.query_map((expression, limit), |row| {
                let bm25: f64 = row.get(15)?;
                Ok(MatchRow {
                    node: node_of(row)?,
                    bm25: bm25.to_bits(),
                })
            })?;
            Reply::Rows(rows.collect::<rusqlite::Result<Vec<_>>>()?)
        }
        Request::Probe { sql, expressions } => {
            let mut stmt = conn.prepare(&sql)?;
            Reply::Probed(
                expressions
                    .iter()
                    .map(|e| stmt.exists((e,)).ok())
                    .collect(),
            )
        }
        Request::Scan {
            sql,
            patterns,
            limit,
        } => {
            let mut stmt = conn.prepare(&sql)?;
            let mut bound: Vec<&dyn rusqlite::ToSql> = Vec::new();
            for pattern in patterns.iter() {
                bound.push(pattern);
            }
            bound.push(&limit);
            let rows = stmt.query_map(bound.as_slice(), node_of)?;
            Reply::Nodes(rows.collect::<rusqlite::Result<Vec<_>>>()?)
        }
    })
}

fn run(conn: &Connection, mut search: Search) -> rusqlite::Result<FtsResult> {
    while let Some(request) = search.request() {
        search = search.resume(answer(conn, request)?);
    }
    search
        .into_result()
        .ok_or(rusqlite::Error::QueryReturnedNoRows)
}

fn fts5_search(conn: &Connection, query: &str, limit: i64) -> rusqlite::Result<FtsResult> {
    run(conn, code_graph_search::search::fts5_search(query, limit))
}

fn fts5_search_with_tests(
    conn: &Connection,
    query: &str,
    limit: i64,
) -> rusqlite::Result<FtsResult> {
    run(
        conn,
        code_graph_search::search::fts5_search_with_tests(query, limit),
    )
}

fn find_functions_by_fuzzy_name(
    conn: &Connection,
    partial_name: &str,
) -> rusqlite::Result<Vec<NameCandidate>> {
    let mut search = code_graph_search::fuzzy::find_functions_by_fuzzy_name(partial_name);
    while let Some(request) = search.request() {
        let reply = match request {
            NameRequest::Tokens { name } => NameReply::Tokens(split_identifier_tokens(&name)),
            NameRequest::Names { sql, parameters } => {
                let mut stmt = conn.prepare(sql)?;
                let rows =
                    stmt.query_map(rusqlite::params_from_iter(parameters.iter()), candidate_of)?;
                NameReply::Candidates(rows.collect::<rusqlite::Result<Vec<_>>>()?)
            }
            NameRequest::Pool { sql } => {
                let mut stmt = conn.prepare(sql)?;
                let rows = stmt.query_map([], candidate_of)?;
                NameReply::Candidates(rows.collect::<rusqlite::Result<Vec<_>>>()?)
            }
        };
        search = search.resume(reply);
    }
    search
        .into_result()
        .ok_or(rusqlite::Error::QueryReturnedNoRows)
}

/// How many rows a search fetches so that `top_k` are left after filtering.
fn search_fetch_count(top_k: i64, filtered: bool) -> i64 {
    if filtered {
        top_k * 16
    } else {
        top_k * 4
    }
}

#[test]
fn test_fts5_search() {
    let (db, _tmp) = test_db();
    let fid = upsert_file(
        db.conn(),
        &FileRecord {
            path: "t.ts".into(),
            blake3_hash: "h".into(),
            last_modified: 1,
            language: None,
        },
    )
    .unwrap();
    insert_node(
        db.conn(),
        &NodeRecord {
            file_id: fid,
            node_type: "function".into(),
            name: "validateToken".into(),
            qualified_name: None,
            start_line: 1,
            end_line: 5,
            code_content: "function validateToken(token) { jwt.verify(token); }".into(),
            signature: None,
            doc_comment: None,
            context_string: Some("validates JWT authentication token".into()),
            name_tokens: None,
            return_type: None,
            param_types: None,
            is_test: false,
        },
    )
    .unwrap();

    let results = fts5_search(db.conn(), "authentication token", 5)
        .unwrap()
        .nodes;
    assert_eq!(results.len(), 1);
    assert_eq!(results[0].name, "validateToken");
}

/// A LIMIT that decides which rows survive needs an ORDER BY above it.
#[test]
fn test_fuzzy_fallback_pool_is_deterministically_bounded() {
    let sql = FUZZY_EDIT_DISTANCE_SQL;
    let order_at = sql.find("ORDER BY").expect(
        "edit-distance pool must be ordered — an unordered LIMIT picks an arbitrary subset",
    );
    let limit_at = sql.find("LIMIT").expect("pool must stay bounded");
    assert!(
        order_at < limit_at,
        "ORDER BY must precede LIMIT to constrain which rows the cut keeps"
    );
}

/// A wildcard character in what was typed must not promote a name that only matches it as a wildcard.
#[test]
fn test_fuzzy_name_order_by_escapes_wildcards() {
    let (db, _tmp) = test_db();
    let fid = upsert_file(
        db.conn(),
        &FileRecord {
            path: "t.ts".into(),
            blake3_hash: "h".into(),
            last_modified: 1,
            language: None,
        },
    )
    .unwrap();
    insert_node(
        db.conn(),
        &NodeRecord {
            file_id: fid,
            node_type: "function".into(),
            name: "abca_c".into(),
            qualified_name: None,
            start_line: 1,
            end_line: 2,
            code_content: "x".into(),
            signature: None,
            doc_comment: None,
            context_string: None,
            name_tokens: None,
            return_type: None,
            param_types: None,
            is_test: false,
        },
    )
    .unwrap();
    insert_node(
        db.conn(),
        &NodeRecord {
            file_id: fid,
            node_type: "function".into(),
            name: "a_cLongerName".into(),
            qualified_name: None,
            start_line: 3,
            end_line: 4,
            code_content: "x".into(),
            signature: None,
            doc_comment: None,
            context_string: None,
            name_tokens: None,
            return_type: None,
            param_types: None,
            is_test: false,
        },
    )
    .unwrap();

    let results = find_functions_by_fuzzy_name(db.conn(), "a_c").unwrap();
    let names: Vec<&str> = results.iter().map(|c| c.name.as_str()).collect();
    assert!(
        names.contains(&"abca_c") && names.contains(&"a_cLongerName"),
        "both literal-substring matches must be returned, got {names:?}"
    );
    assert_eq!(
        results[0].name, "a_cLongerName",
        "genuine literal prefix must outrank a wildcard-coincidental match, got {names:?}"
    );
}

/// Inserts a production function node with the given name and code.
fn insert_fn(conn: &rusqlite::Connection, fid: i64, name: &str, line: i64, code: &str) {
    insert_node(
        conn,
        &NodeRecord {
            file_id: fid,
            node_type: "function".into(),
            name: name.into(),
            qualified_name: None,
            start_line: line,
            end_line: line + 4,
            code_content: code.into(),
            signature: None,
            doc_comment: None,
            context_string: None,
            name_tokens: Some(split_identifier(name)),
            return_type: None,
            param_types: None,
            is_test: false,
        },
    )
    .unwrap();
}

fn qualified_name_fixture() -> (Database, ()) {
    let (db, tmp) = test_db();
    let fid = upsert_file(
        db.conn(),
        &FileRecord {
            path: "runner.rs".into(),
            blake3_hash: "h".into(),
            last_modified: 1,
            language: None,
        },
    )
    .unwrap();
    insert_fn(
        db.conn(),
        fid,
        "run_migration",
        1,
        "fn run_migration(db: &Db) { db.execute(\"PRAGMA foreign_keys=ON\"); }",
    );
    insert_fn(
        db.conn(),
        fid,
        "search_fetch_count",
        20,
        "pub fn search_fetch_count(top_k: i64) -> i64 { top_k * 4 }",
    );
    insert_fn(
        db.conn(),
        fid,
        "widen_pool",
        40,
        "fn widen_pool() { let n = domain::search_fetch_count(top_k); }",
    );
    insert_fn(
        db.conn(),
        fid,
        "execute_plan",
        60,
        "fn execute_plan() { plan.execute(); }",
    );
    (db, tmp)
}

/// Punctuation separates terms; it is not deleted.
#[test]
fn test_fts5_qualified_name_query_splits_on_punctuation() {
    let (db, _tmp) = qualified_name_fixture();

    for query in [
        "db.execute",
        "domain::search_fetch_count",
        "name:run_migration",
    ] {
        let hits = fts5_search(db.conn(), query, 10).unwrap().nodes;
        assert!(
            !hits.is_empty(),
            "query {query:?} must not be a hard zero — punctuation is a term separator, not a character to delete"
        );
    }

    let db_execute: Vec<String> = fts5_search(db.conn(), "db.execute", 10)
        .unwrap()
        .nodes
        .iter()
        .map(|n| n.name.clone())
        .collect();
    assert!(
        db_execute.contains(&"run_migration".to_string()),
        "db.execute must find the function whose body calls db.execute(), got {db_execute:?}"
    );

    let qualified: Vec<String> = fts5_search(db.conn(), "domain::search_fetch_count", 10)
        .unwrap()
        .nodes
        .iter()
        .map(|n| n.name.clone())
        .collect();
    assert!(
        qualified.contains(&"search_fetch_count".to_string()),
        "a `mod::symbol` query must find `symbol`, got {qualified:?}"
    );
}

/// No query reaches the full-text parser as syntax.
#[test]
fn test_fts5_hostile_queries_stay_well_formed() {
    let (db, _tmp) = qualified_name_fixture();
    let hostile = [
        "\" OR nodes_fts MATCH \"a",
        "a\" AND \"b",
        "NEAR(a b, 2)",
        "a* OR b*",
        "^start",
        "col:value",
        "a AND NOT b",
        "(a OR b) AND c",
        "{a b}",
        "a-b-c",
        "\"\"\"\"",
        "'; DROP TABLE nodes; --",
        "a+b~c",
        "run_migration\" OR \"1",
    ];
    for q in hostile {
        let out = fts5_search(db.conn(), q, 10);
        assert!(
            out.is_ok(),
            "hostile query {q:?} must not reach the FTS5 parser as syntax: {:?}",
            out.err()
        );
    }
    let injected: Vec<String> = fts5_search(db.conn(), "run_migration\" OR \"1", 10)
        .unwrap()
        .nodes
        .iter()
        .map(|n| n.name.clone())
        .collect();
    assert!(
        injected.iter().all(|n| n == "run_migration"),
        "quote-injection must not pull in unrelated rows, got {injected:?}"
    );
}

/// The pieces of one typed token are not looked for one by one; listed words are.
#[test]
fn test_single_flag_token_does_not_or_flood() {
    let (db, _tmp) = test_db();
    let fid = upsert_file(
        db.conn(),
        &FileRecord {
            path: "flags.rs".into(),
            blake3_hash: "h".into(),
            last_modified: 1,
            language: None,
        },
    )
    .unwrap();
    insert_fn(db.conn(), fid, "prune_edges", 1, "fn prune_edges() {}");
    insert_fn(db.conn(), fid, "vector_scan", 20, "fn vector_scan() {}");

    let flag = fts5_search(db.conn(), "--prune-vector", 10).unwrap();
    assert!(
        flag.nodes.is_empty() && !flag.or_fallback,
        "a single flag-shaped token whose fragments never co-occur must stay empty, got {:?}",
        flag.nodes
            .iter()
            .map(|n| n.name.clone())
            .collect::<Vec<_>>()
    );

    let listed = fts5_search(db.conn(), "prune vector", 10).unwrap();
    assert!(
        listed.or_fallback && listed.nodes.len() == 2,
        "user-listed words must keep OR-fallback, got or_fallback={} nodes={:?}",
        listed.or_fallback,
        listed
            .nodes
            .iter()
            .map(|n| n.name.clone())
            .collect::<Vec<_>>()
    );
}

#[test]
fn test_fts5_search_excludes_test_nodes() {
    let (db, _tmp) = test_db();
    let fid = upsert_file(
        db.conn(),
        &FileRecord {
            path: "t.ts".into(),
            blake3_hash: "h".into(),
            last_modified: 1,
            language: None,
        },
    )
    .unwrap();
    insert_node(
        db.conn(),
        &NodeRecord {
            file_id: fid,
            node_type: "function".into(),
            name: "validateToken".into(),
            qualified_name: None,
            start_line: 1,
            end_line: 5,
            code_content: "function validateToken(token) { jwt.verify(token); }".into(),
            signature: None,
            doc_comment: None,
            context_string: None,
            name_tokens: None,
            return_type: None,
            param_types: None,
            is_test: false,
        },
    )
    .unwrap();
    insert_node(
        db.conn(),
        &NodeRecord {
            file_id: fid,
            node_type: "function".into(),
            name: "test_validateToken".into(),
            qualified_name: None,
            start_line: 10,
            end_line: 15,
            code_content: "function test_validateToken() { assert(validateToken('x')); }"
                .into(),
            signature: None,
            doc_comment: None,
            context_string: None,
            name_tokens: None,
            return_type: None,
            param_types: None,
            is_test: true,
        },
    )
    .unwrap();

    let results = fts5_search(db.conn(), "validateToken", 10).unwrap().nodes;
    assert_eq!(results.len(), 1, "should exclude test node");
    assert_eq!(results[0].name, "validateToken");

    let results_all = fts5_search_with_tests(db.conn(), "validateToken", 10)
        .unwrap()
        .nodes;
    assert_eq!(results_all.len(), 2, "should include test node");
}

#[test]
fn test_fts5_and_then_or_strategy() {
    let (db, _tmp) = test_db();
    let fid = upsert_file(
        db.conn(),
        &FileRecord {
            path: "t.ts".into(),
            blake3_hash: "h".into(),
            last_modified: 1,
            language: None,
        },
    )
    .unwrap();
    insert_node(
        db.conn(),
        &NodeRecord {
            file_id: fid,
            node_type: "function".into(),
            name: "validateToken".into(),
            qualified_name: None,
            start_line: 1,
            end_line: 5,
            code_content: "function validateToken(token) { return true; }".into(),
            signature: None,
            doc_comment: None,
            context_string: None,
            name_tokens: None,
            return_type: None,
            param_types: None,
            is_test: false,
        },
    )
    .unwrap();
    insert_node(
        db.conn(),
        &NodeRecord {
            file_id: fid,
            node_type: "function".into(),
            name: "validateEmail".into(),
            qualified_name: None,
            start_line: 10,
            end_line: 15,
            code_content: "function validateEmail(email) { return true; }".into(),
            signature: None,
            doc_comment: None,
            context_string: None,
            name_tokens: None,
            return_type: None,
            param_types: None,
            is_test: false,
        },
    )
    .unwrap();

    let fts = fts5_search(db.conn(), "validate token", 10).unwrap();
    assert!(!fts.nodes.is_empty(), "should find results");
    assert_eq!(fts.nodes[0].name, "validateToken");
}

#[test]
fn test_fts5_and_threshold_no_unnecessary_or_fallback() {
    let (db, _tmp) = test_db();
    let fid = upsert_file(
        db.conn(),
        &FileRecord {
            path: "t.ts".into(),
            blake3_hash: "h".into(),
            last_modified: 1,
            language: None,
        },
    )
    .unwrap();
    for i in 0..4 {
        insert_node(
            db.conn(),
            &NodeRecord {
                file_id: fid,
                node_type: "function".into(),
                name: format!("handler{}", i),
                qualified_name: None,
                start_line: i * 10 + 1,
                end_line: i * 10 + 5,
                code_content: format!("function handler{}() {{ parse json data }}", i),
                signature: None,
                doc_comment: None,
                context_string: None,
                name_tokens: None,
                return_type: None,
                param_types: None,
                is_test: false,
            },
        )
        .unwrap();
    }
    insert_node(
        db.conn(),
        &NodeRecord {
            file_id: fid,
            node_type: "function".into(),
            name: "parseXml".into(),
            qualified_name: None,
            start_line: 50,
            end_line: 55,
            code_content: "function parseXml(xml) { parse xml data }".into(),
            signature: None,
            doc_comment: None,
            context_string: None,
            name_tokens: None,
            return_type: None,
            param_types: None,
            is_test: false,
        },
    )
    .unwrap();

    let fts = fts5_search(db.conn(), "parse json", 20).unwrap();
    assert!(
        !fts.or_fallback,
        "4 AND results >= AND_MATCH_FLOOR, should NOT fall back to OR"
    );
    assert_eq!(fts.nodes.len(), 4);

    for pool in [
        20,
        search_fetch_count(20, false),
        search_fetch_count(20, true),
    ] {
        let fts = fts5_search(db.conn(), "parse json", pool).unwrap();
        assert!(
            !fts.or_fallback,
            "pool size {pool} must not change the AND/OR verdict"
        );
        assert_eq!(fts.nodes.len(), 4, "pool {pool} must return the same rows");
    }
}

#[test]
fn test_fts5_single_word_garbage_does_not_or_fallback() {
    let (db, _tmp) = test_db();
    let fid = upsert_file(
        db.conn(),
        &FileRecord {
            path: "t.rs".into(),
            blake3_hash: "h".into(),
            last_modified: 1,
            language: None,
        },
    )
    .unwrap();
    insert_node(
        db.conn(),
        &NodeRecord {
            file_id: fid,
            node_type: "function".into(),
            name: "tryMatchSomething".into(),
            qualified_name: None,
            start_line: 1,
            end_line: 5,
            code_content: "fn tryMatchSomething() {}".into(),
            signature: None,
            doc_comment: None,
            context_string: None,
            name_tokens: Some("try Match Something tryMatchSomething".into()),
            return_type: None,
            param_types: None,
            is_test: false,
        },
    )
    .unwrap();
    insert_node(
        db.conn(),
        &NodeRecord {
            file_id: fid,
            node_type: "function".into(),
            name: "buildScript".into(),
            qualified_name: None,
            start_line: 10,
            end_line: 14,
            code_content: "fn buildScript() { run(\"--no-default-features\"); }".into(),
            signature: None,
            doc_comment: None,
            context_string: None,
            name_tokens: Some("build Script buildScript".into()),
            return_type: None,
            param_types: None,
            is_test: false,
        },
    )
    .unwrap();

    let result = fts5_search(db.conn(), "ZzzzNoMatchXyzzz", 20).unwrap();
    assert!(
        result.nodes.is_empty(),
        "single-word garbage query must not OR-fallback to camelCase noise; got {:?}",
        result.nodes.iter().map(|n| &n.name).collect::<Vec<_>>()
    );
}

#[test]
fn test_fts5_single_word_real_identifier_still_matches() {
    let (db, _tmp) = test_db();
    let fid = upsert_file(
        db.conn(),
        &FileRecord {
            path: "t.rs".into(),
            blake3_hash: "h".into(),
            last_modified: 1,
            language: None,
        },
    )
    .unwrap();
    insert_node(
        db.conn(),
        &NodeRecord {
            file_id: fid,
            node_type: "function".into(),
            name: "validateToken".into(),
            qualified_name: None,
            start_line: 1,
            end_line: 5,
            code_content: "fn validateToken() {}".into(),
            signature: None,
            doc_comment: None,
            context_string: None,
            name_tokens: Some("validate Token validateToken".into()),
            return_type: None,
            param_types: None,
            is_test: false,
        },
    )
    .unwrap();

    let result = fts5_search(db.conn(), "validateToken", 10).unwrap();
    assert!(!result.nodes.is_empty(), "real identifier must still match");
    assert_eq!(result.nodes[0].name, "validateToken");
}

#[test]
fn test_fts5_multiword_garbage_still_or_fallbacks() {
    let (db, _tmp) = test_db();
    let fid = upsert_file(
        db.conn(),
        &FileRecord {
            path: "t.rs".into(),
            blake3_hash: "h".into(),
            last_modified: 1,
            language: None,
        },
    )
    .unwrap();
    insert_node(
        db.conn(),
        &NodeRecord {
            file_id: fid,
            node_type: "function".into(),
            name: "doMatchOnly".into(),
            qualified_name: None,
            start_line: 1,
            end_line: 5,
            code_content: "fn doMatchOnly() {}".into(),
            signature: None,
            doc_comment: None,
            context_string: None,
            name_tokens: Some("do Match Only doMatchOnly".into()),
            return_type: None,
            param_types: None,
            is_test: false,
        },
    )
    .unwrap();

    let result = fts5_search(db.conn(), "Match XyzNotReal", 10).unwrap();
    assert!(
        !result.nodes.is_empty(),
        "multi-word query keeps OR-fallback"
    );
    assert!(result.or_fallback, "expected or_fallback flag to be true");
}

/// One node whose text carries a long run without spaces, and one without.
fn cjk_fixture() -> (Database, ()) {
    let (db, tmp) = test_db();
    let fid = upsert_file(
        db.conn(),
        &FileRecord {
            path: "order.py".into(),
            blake3_hash: "h".into(),
            last_modified: 1,
            language: Some("python".into()),
        },
    )
    .unwrap();
    insert_node(
        db.conn(),
        &NodeRecord {
            file_id: fid,
            node_type: "function".into(),
            name: "create_order".into(),
            qualified_name: None,
            start_line: 1,
            end_line: 5,
            code_content: "def create_order(uid):\n    pass".into(),
            signature: None,
            doc_comment: Some("创建订单并扣减库存".into()),
            context_string: None,
            name_tokens: None,
            return_type: None,
            param_types: None,
            is_test: false,
        },
    )
    .unwrap();
    insert_node(
        db.conn(),
        &NodeRecord {
            file_id: fid,
            node_type: "function".into(),
            name: "charge_card".into(),
            qualified_name: None,
            start_line: 7,
            end_line: 9,
            code_content: "def charge_card(token):\n    pass".into(),
            signature: None,
            doc_comment: Some("payment gateway wrapper".into()),
            context_string: None,
            name_tokens: None,
            return_type: None,
            param_types: None,
            is_test: false,
        },
    )
    .unwrap();
    (db, tmp)
}

/// A word inside a run without spaces is reachable.
#[test]
fn test_cjk_substring_query_finds_node() {
    let (db, _tmp) = cjk_fixture();

    let via_match = fts5_search(db.conn(), "创建订单并扣减库存", 10).unwrap();
    assert_eq!(
        via_match.nodes.len(),
        1,
        "whole-run query must match via FTS5 — fixture or tokenizer changed"
    );
    assert!(
        !via_match.cjk_substring_fallback,
        "whole-run query is a real MATCH hit, the fallback must not fire"
    );

    let result = fts5_search(db.conn(), "订单", 10).unwrap();
    assert_eq!(
        result.nodes.len(),
        1,
        "a CJK word inside an unsegmented run must be reachable"
    );
    assert_eq!(result.nodes[0].name, "create_order");
    assert!(
        result.cjk_substring_fallback,
        "this hit came from the substring scan and must say so"
    );
}

/// A miss in ASCII stays empty.
#[test]
fn test_ascii_miss_does_not_trigger_substring_fallback() {
    let (db, _tmp) = cjk_fixture();

    let result = fts5_search(db.conn(), "gatewa", 10).unwrap();
    assert!(
        result.nodes.is_empty(),
        "ASCII substring of an indexed word must NOT be found by the CJK fallback"
    );
    assert!(!result.cjk_substring_fallback);
}

/// A genuine miss stays empty, and a direct hit is not called rescued.
#[test]
fn test_cjk_fallback_only_fires_on_empty_and_only_for_cjk() {
    let (db, _tmp) = cjk_fixture();

    let miss = fts5_search(db.conn(), "无关词条", 10).unwrap();
    assert!(miss.nodes.is_empty(), "genuine CJK miss stays empty");

    let ascii = fts5_search(db.conn(), "payment gateway", 10).unwrap();
    assert!(!ascii.nodes.is_empty(), "ASCII search still works");
    assert!(!ascii.cjk_substring_fallback);
}

/// Both ways of widening count, and a direct hit does not.
#[test]
fn test_widened_match_covers_both_arms() {
    let mk = |or_fb: bool, cjk: bool| FtsResult {
        nodes: vec![],
        bm25_scores: vec![],
        or_fallback: or_fb,
        cjk_substring_fallback: cjk,
        empty_reason: None,
    };
    assert!(
        !mk(false, false).is_widened_match(),
        "direct hit is not widened"
    );
    assert!(mk(true, false).is_widened_match(), "OR fallback is widened");
    assert!(
        mk(false, true).is_widened_match(),
        "CJK substring rescue is widened — dropping this re-fires the no-anchor warning"
    );
    assert!(mk(true, true).is_widened_match());
}

/// Identifier hits come first even with the longest body, then the shortest body.
#[test]
fn test_cjk_substring_ranking_is_identifier_then_shortest() {
    let (db, _tmp) = test_db();
    let fid = upsert_file(
        db.conn(),
        &FileRecord {
            path: "w.py".into(),
            blake3_hash: "h".into(),
            last_modified: 1,
            language: Some("python".into()),
        },
    )
    .unwrap();
    let add = |name: &str, body: &str, doc: Option<&str>| {
        insert_node(
            db.conn(),
            &NodeRecord {
                file_id: fid,
                node_type: "function".into(),
                name: name.into(),
                qualified_name: None,
                start_line: 1,
                end_line: 2,
                code_content: body.into(),
                signature: None,
                doc_comment: doc.map(String::from),
                context_string: None,
                name_tokens: None,
                return_type: None,
                param_types: None,
                is_test: false,
            },
        )
        .unwrap();
    };
    add("short_body", "y = 2  # 扣减库存", None);
    add(
        "mid_body",
        &format!("x = 1  # 扣减库存\n{}", "pad\n".repeat(50)),
        None,
    );
    add(
        "库存校验",
        &format!("z = 3\n{}", "pad\n".repeat(200)),
        Some("与查询词无关的说明"),
    );

    let r = fts5_search(db.conn(), "库存", 10).unwrap();
    assert!(
        r.cjk_substring_fallback,
        "must come from the substring scan"
    );
    let order: Vec<&str> = r.nodes.iter().map(|n| n.name.as_str()).collect();
    assert_eq!(
        order,
        vec!["库存校验", "short_body", "mid_body"],
        "identifier hit first even with the longest body, then shortest body"
    );
}

/// The order of the scan ends in a unique column, so its LIMIT keeps the same rows.
#[test]
fn test_cjk_scan_order_ends_in_a_total_tiebreak() {
    assert!(
        CJK_SCAN_ORDER_TAIL.trim_end().ends_with("n.id"),
        "without a unique final term the LIMIT keeps an arbitrary subset of \
         rows that tie on every preceding term: {CJK_SCAN_ORDER_TAIL}"
    );
    assert!(
        CJK_SCAN_ORDER_TAIL.contains("LENGTH(COALESCE(n.code_content"),
        "the density leg must precede the tiebreak"
    );
}

/// A run without spaces that holds two words.
const RUN: &str = "创建订单并扣减库存";

/// An identifier hit of any term counts, not only of the first.
#[test]
fn test_cjk_identifier_rank_spans_every_term() {
    let (db, _tmp) = test_db();
    let fid = upsert_file(
        db.conn(),
        &FileRecord {
            path: "m.py".into(),
            blake3_hash: "h".into(),
            last_modified: 1,
            language: Some("python".into()),
        },
    )
    .unwrap();
    let add = |name: &str, body: &str| {
        insert_node(
            db.conn(),
            &NodeRecord {
                file_id: fid,
                node_type: "function".into(),
                name: name.into(),
                qualified_name: None,
                start_line: 1,
                end_line: 2,
                code_content: body.into(),
                signature: None,
                doc_comment: None,
                context_string: None,
                name_tokens: None,
                return_type: None,
                param_types: None,
                is_test: false,
            },
        )
        .unwrap();
    };
    add("helper", &format!("a = 1  # {RUN}"));
    add(
        "订单处理器",
        &format!("b = 2  # {RUN}\n{}", "pad\n".repeat(100)),
    );
    add(
        "库存处理器",
        &format!("c = 3  # {RUN}\n{}", "pad\n".repeat(200)),
    );

    let r = fts5_search(db.conn(), "订单 库存", 10).unwrap();
    assert!(r.cjk_substring_fallback);
    let order: Vec<&str> = r.nodes.iter().map(|n| n.name.as_str()).collect();
    assert_eq!(
        order,
        vec!["订单处理器", "库存处理器", "helper"],
        "both identifier hits outrank the shortest non-identifier body"
    );
}

/// The scan requires all of its terms.
#[test]
fn test_cjk_multi_term_requires_all_terms() {
    let (db, _tmp) = cjk_fixture();
    let both = fts5_search(db.conn(), "订单 网关", 10).unwrap();
    assert!(
        both.nodes.is_empty(),
        "AND semantics: a term present in no node must empty the result"
    );
    let one = fts5_search(db.conn(), "订单", 10).unwrap();
    assert_eq!(one.nodes.len(), 1);
}

/// Too many terms are an empty answer, not an error.
#[test]
fn test_cjk_scan_term_cap_answers_empty_not_error() {
    let (db, _tmp) = cjk_fixture();
    let many: String = (0..(CJK_SCAN_MAX_TERMS + 1))
        .map(|i| char::from_u32(0x4E00 + i as u32).unwrap())
        .map(|c| format!("{} ", c))
        .collect();
    let r = fts5_search(db.conn(), &many, 10).expect("over-cap query must not error");
    assert!(r.nodes.is_empty());
    assert!(!r.cjk_substring_fallback);

    let huge: String = (0..2000)
        .map(|i| char::from_u32(0x4E00 + i as u32).unwrap())
        .map(|c| format!("{} ", c))
        .collect();
    assert!(fts5_search(db.conn(), &huge, 10).is_ok());
}

/// Each run is a term of its own: the stored text holds both runs but never their concatenation.
#[test]
fn test_cjk_runs_are_not_glued_across_separators() {
    let (db, _tmp) = cjk_fixture();

    let split = fts5_search(db.conn(), "订单x库存", 10).unwrap();
    assert_eq!(
        split.nodes.len(),
        1,
        "two runs must be ANDed, not concatenated into 订单库存"
    );
    assert_eq!(split.nodes[0].name, "create_order");
    assert!(split.cjk_substring_fallback);

    assert!(
        fts5_search(db.conn(), "订单库存", 10)
            .unwrap()
            .nodes
            .is_empty(),
        "the glued string must match nothing, else this test proves nothing"
    );
}

/// The scan leaves out test symbols, as MATCH does.
#[test]
fn test_cjk_scan_excludes_test_nodes() {
    let (db, _tmp) = test_db();
    let fid = upsert_file(
        db.conn(),
        &FileRecord {
            path: "t.py".into(),
            blake3_hash: "h".into(),
            last_modified: 1,
            language: Some("python".into()),
        },
    )
    .unwrap();
    insert_node(
        db.conn(),
        &NodeRecord {
            file_id: fid,
            node_type: "function".into(),
            name: "test_helper".into(),
            qualified_name: None,
            start_line: 1,
            end_line: 2,
            code_content: "pass".into(),
            signature: None,
            doc_comment: Some("校验库存是否充足".into()),
            context_string: None,
            name_tokens: None,
            return_type: None,
            param_types: None,
            is_test: true,
        },
    )
    .unwrap();

    assert!(
        fts5_search(db.conn(), "库存", 10).unwrap().nodes.is_empty(),
        "a test-only node must not be rescued into ordinary results"
    );
    let with_tests = fts5_search_with_tests(db.conn(), "库存", 10).unwrap();
    assert_eq!(with_tests.nodes.len(), 1);
    assert!(with_tests.cjk_substring_fallback);
}

/// A label, and where in the record to put the run.
type ColCase = (&'static str, fn(&mut NodeRecord));

/// Every text column is scanned.
#[test]
fn test_cjk_scan_covers_every_text_column() {
    let cols: [ColCase; 5] = [
        ("name", |n| n.name = "库存校验".into()),
        ("qualified_name", |n| {
            n.qualified_name = Some("mod::库存校验".into())
        }),
        ("code_content", |n| n.code_content = "x = '库存校验'".into()),
        ("context_string", |n| {
            n.context_string = Some("库存校验".into())
        }),
        ("doc_comment", |n| n.doc_comment = Some("库存校验".into())),
    ];
    for (label, place) in cols {
        let (db, _tmp) = test_db();
        let fid = upsert_file(
            db.conn(),
            &FileRecord {
                path: "c.py".into(),
                blake3_hash: "h".into(),
                last_modified: 1,
                language: Some("python".into()),
            },
        )
        .unwrap();
        let mut rec = NodeRecord {
            file_id: fid,
            node_type: "function".into(),
            name: "plain".into(),
            qualified_name: None,
            start_line: 1,
            end_line: 2,
            code_content: "pass".into(),
            signature: None,
            doc_comment: None,
            context_string: None,
            name_tokens: None,
            return_type: None,
            param_types: None,
            is_test: false,
        };
        place(&mut rec);
        insert_node(db.conn(), &rec).unwrap();
        let r = fts5_search(db.conn(), "库存", 10).unwrap();
        assert_eq!(r.nodes.len(), 1, "column {label} must be scanned");
    }
}

/// Every script that counts as written without spaces is reachable.
#[test]
fn test_cjk_scan_covers_every_claimed_script() {
    let cases: [(&str, &str, &str); 5] = [
        ("CJK Unified", "创建订单并扣减库存", "订单"),
        ("kana (full-width)", "ちゅうもんをさくせいする", "もん"),
        ("kana (half-width)", "ﾁｭｳﾓﾝｻｸｾｲ", "ﾓﾝ"),
        ("Hangul syllables", "주문생성처리", "주문"),
        ("Ext B", "\u{20000}\u{20001}\u{20002}", "\u{20001}"),
    ];
    for (label, stored, needle) in cases {
        let (db, _tmp) = test_db();
        let fid = upsert_file(
            db.conn(),
            &FileRecord {
                path: "s.py".into(),
                blake3_hash: "h".into(),
                last_modified: 1,
                language: Some("python".into()),
            },
        )
        .unwrap();
        insert_node(
            db.conn(),
            &NodeRecord {
                file_id: fid,
                node_type: "function".into(),
                name: "f".into(),
                qualified_name: None,
                start_line: 1,
                end_line: 2,
                code_content: "pass".into(),
                signature: None,
                doc_comment: Some(stored.into()),
                context_string: None,
                name_tokens: None,
                return_type: None,
                param_types: None,
                is_test: false,
            },
        )
        .unwrap();
        let r = fts5_search(db.conn(), needle, 10).unwrap();
        assert_eq!(
            r.nodes.len(),
            1,
            "{label}: needle inside a run must resolve"
        );
        assert!(r.cjk_substring_fallback, "{label}");
    }
}

/// Rows for the other words keep the scan from running.
#[test]
fn test_mixed_query_leaves_the_cjk_term_unreachable() {
    let (db, _tmp) = cjk_fixture();

    let pure = fts5_search(db.conn(), "订单", 10).unwrap();
    assert_eq!(pure.nodes[0].name, "create_order", "control: rescue works");

    let mixed = fts5_search(db.conn(), "payment 订单", 10).unwrap();
    let names: Vec<&str> = mixed.nodes.iter().map(|n| n.name.as_str()).collect();
    assert!(
        !names.contains(&"create_order"),
        "documented gap: a non-empty Latin half suppresses the rescue"
    );
    assert!(
        !mixed.cjk_substring_fallback,
        "the scan must not have run at all"
    );
    assert!(mixed.or_fallback, "the rows came from the OR widening");
}

/// One such character is long enough to be a term; one Latin character is not.
#[test]
fn test_single_cjk_character_still_searches() {
    let (db, _tmp) = cjk_fixture();
    let r = fts5_search(db.conn(), "订", 10).unwrap();
    assert_eq!(r.nodes.len(), 1, "one CJK char must still reach the scan");
    assert_eq!(r.nodes[0].name, "create_order");
    assert!(r.cjk_substring_fallback);
    assert!(
        r.empty_reason.is_none(),
        "must not be refused as 'shorter than the 2-character minimum'"
    );

    let latin = fts5_search(db.conn(), "a", 10).unwrap();
    assert!(latin.nodes.is_empty());
    assert!(
        latin.empty_reason.is_some(),
        "single Latin char stays refused"
    );
}

#[test]
fn test_levenshtein() {
    assert_eq!(levenshtein("", ""), 0);
    assert_eq!(levenshtein("abc", ""), 3);
    assert_eq!(levenshtein("", "abc"), 3);
    assert_eq!(levenshtein("abc", "abc"), 0);
    assert_eq!(levenshtein("kitten", "sitting"), 3);
    assert_eq!(levenshtein("handle_message", "handle_mesage"), 1);
    assert_eq!(levenshtein("database", "databas"), 1);
    assert_eq!(levenshtein("foo", "bar"), 3);
}

fn one_file(conn: &Connection, path: &str) -> i64 {
    upsert_file(
        conn,
        &FileRecord {
            path: path.into(),
            blake3_hash: "h".into(),
            last_modified: 1,
            language: None,
        },
    )
    .unwrap()
}

fn named_node(conn: &Connection, fid: i64, node_type: &str, name: &str) -> i64 {
    insert_node(
        conn,
        &NodeRecord {
            file_id: fid,
            node_type: node_type.into(),
            name: name.into(),
            qualified_name: None,
            start_line: 7,
            end_line: 9,
            code_content: "pass".into(),
            signature: None,
            doc_comment: None,
            context_string: None,
            name_tokens: Some(split_identifier(name)),
            return_type: None,
            param_types: None,
            is_test: false,
        },
    )
    .unwrap()
}

#[test]
fn queries_without_terms_say_why() {
    let (db, _) = test_db();
    for (query, reason) in [
        ("", "the query has no searchable characters"),
        (" .,;!? ", "the query has no searchable characters"),
        ("the of", "every word in the query is a stop word"),
        ("The OF how", "every word in the query is a stop word"),
        (
            "x",
            "every term is shorter than the 2-character minimum the index tokenizer stores",
        ),
        (
            "the x",
            "every term is shorter than the 2-character minimum the index tokenizer stores",
        ),
    ] {
        let r = fts5_search(db.conn(), query, 10).unwrap();
        assert!(r.nodes.is_empty() && r.bm25_scores.is_empty());
        assert!(!r.or_fallback && !r.cjk_substring_fallback);
        assert_eq!(r.empty_reason, Some(reason), "{query:?}");
    }
    // Asked for, and not there.
    let r = fts5_search(db.conn(), "nothing_here", 10).unwrap();
    assert_eq!(r.empty_reason, None);
    assert!(r.nodes.is_empty());
}

#[test]
fn a_database_without_tables_fails() {
    let conn = Connection::open_in_memory().unwrap();
    assert!(fts5_search(&conn, "anything", 10).is_err());
    assert!(find_functions_by_fuzzy_name(&conn, "anything").is_err());
    // Nothing to look for: the database is not asked.
    assert!(fts5_search(&conn, "x", 10).is_ok());
}

#[test]
fn acronyms_find_what_they_stand_for() {
    let (db, _) = test_db();
    let fid = one_file(db.conn(), "rank.rs");
    insert_fn(
        db.conn(),
        fid,
        "weighted_fusion",
        1,
        "fn weighted_fusion() { reciprocal rank }",
    );
    insert_fn(db.conn(), fid, "rrf", 10, "fn rrf() {}");
    let r = fts5_search(db.conn(), "RRF", 10).unwrap();
    let mut names: Vec<&str> = r.nodes.iter().map(|n| n.name.as_str()).collect();
    names.sort();
    assert_eq!(names, vec!["rrf", "weighted_fusion"]);
    assert!(r.or_fallback);
}

#[test]
fn relaxed_matches_are_called_widened() {
    let (db, _) = qualified_name_fixture();
    let r = fts5_search(db.conn(), "name:run_migration", 10).unwrap();
    assert_eq!(r.nodes.len(), 1);
    assert_eq!(r.nodes[0].name, "run_migration");
    assert!(r.or_fallback && r.is_widened_match());
}

#[test]
fn scores_are_positive_and_go_with_the_rows() {
    let (db, _) = qualified_name_fixture();
    let r = fts5_search(db.conn(), "execute", 10).unwrap();
    assert_eq!(r.nodes.len(), r.bm25_scores.len());
    assert_eq!(r.nodes.len(), 2);
    let scores: Vec<f64> = r.bm25_scores.iter().map(|b| f64::from_bits(*b)).collect();
    assert!(scores.iter().all(|s| *s > 0.0));
    assert!(scores[0] >= scores[1]);
    assert!(!r.or_fallback);
}

#[test]
fn rescued_rows_have_the_score_zero() {
    let (db, _) = cjk_fixture();
    let r = fts5_search(db.conn(), "订单", 10).unwrap();
    let scores: Vec<f64> = r.bm25_scores.iter().map(|b| f64::from_bits(*b)).collect();
    assert_eq!(scores, vec![0.0]);
}

#[test]
fn a_smaller_limit_finds_the_first_rows() {
    let (db, _) = test_db();
    let fid = one_file(db.conn(), "p.rs");
    for i in 0..6 {
        let name = format!("handler{}", i);
        let code = format!("{} parse json", "pad ".repeat(i));
        insert_fn(db.conn(), fid, &name, 1, &code);
    }
    let all = fts5_search(db.conn(), "parse json", 100).unwrap();
    assert_eq!(all.nodes.len(), 6);
    assert!(!all.or_fallback);
    for limit in 3..6 {
        let few = fts5_search(db.conn(), "parse json", limit).unwrap();
        assert!(!few.or_fallback);
        let first: Vec<i64> = all.nodes.iter().take(limit as usize).map(|n| n.id).collect();
        let ids: Vec<i64> = few.nodes.iter().map(|n| n.id).collect();
        assert_eq!(ids, first);
    }
    // Below the floor too few rows come back to be kept.
    assert!(fts5_search(db.conn(), "parse json", 2).unwrap().or_fallback);
}

#[test]
fn rows_carry_every_column() {
    let (db, _) = test_db();
    let fid = one_file(db.conn(), "all.rs");
    let id = insert_node(
        db.conn(),
        &NodeRecord {
            file_id: fid,
            node_type: "method".into(),
            name: "alpha".into(),
            qualified_name: Some("beta".into()),
            start_line: 11,
            end_line: 12,
            code_content: "gamma".into(),
            signature: Some("delta".into()),
            doc_comment: Some("epsilon".into()),
            context_string: Some("zeta".into()),
            name_tokens: Some("eta".into()),
            return_type: Some("theta".into()),
            param_types: Some("iota".into()),
            is_test: true,
        },
    )
    .unwrap();
    let r = fts5_search_with_tests(db.conn(), "alpha", 5).unwrap();
    assert_eq!(r.nodes.len(), 1);
    let n = &r.nodes[0];
    assert_eq!((n.id, n.file_id, n.start_line, n.end_line), (id, fid, 11, 12));
    assert_eq!((n.node_type.as_str(), n.name.as_str()), ("method", "alpha"));
    assert_eq!(n.qualified_name.as_deref(), Some("beta"));
    assert_eq!(n.code_content, "gamma");
    assert_eq!(n.signature.as_deref(), Some("delta"));
    assert_eq!(n.doc_comment.as_deref(), Some("epsilon"));
    assert_eq!(n.context_string.as_deref(), Some("zeta"));
    assert_eq!(n.name_tokens.as_deref(), Some("eta"));
    assert_eq!(n.return_type.as_deref(), Some("theta"));
    assert_eq!(n.param_types.as_deref(), Some("iota"));
    assert!(n.is_test);
}

#[test]
fn typos_are_corrected_from_the_pool() {
    let (db, _) = test_db();
    let fid = one_file(db.conn(), "m.rs");
    named_node(db.conn(), fid, "function", "handle_message");
    named_node(db.conn(), fid, "function", "unrelated");
    let r = find_functions_by_fuzzy_name(db.conn(), "handle_mesage").unwrap();
    let names: Vec<&str> = r.iter().map(|c| c.name.as_str()).collect();
    assert_eq!(names, vec!["handle_message"]);
    assert_eq!(r[0].file_path, "m.rs");
    assert_eq!(r[0].node_type, "function");
    assert_eq!(r[0].start_line, 7);
    // A name that holds the text is a hit, not a correction.
    let r = find_functions_by_fuzzy_name(db.conn(), "message").unwrap();
    assert_eq!(r.len(), 1);
    assert!(find_functions_by_fuzzy_name(db.conn(), "zzzzzzzz").unwrap().is_empty());
}

#[test]
fn modules_and_outside_names_are_left_out_of_both_passes() {
    let (db, _) = test_db();
    let fid = one_file(db.conn(), "m.rs");
    let outside = one_file(db.conn(), "<external>");
    named_node(db.conn(), fid, "module", "Debugs");
    named_node(db.conn(), outside, "trait", "Debug");
    assert!(find_functions_by_fuzzy_name(db.conn(), "Debug").unwrap().is_empty());
    assert!(find_functions_by_fuzzy_name(db.conn(), "Debog").unwrap().is_empty());
    named_node(db.conn(), fid, "trait", "Debug2");
    let r = find_functions_by_fuzzy_name(db.conn(), "Debog").unwrap();
    assert_eq!(r.len(), 1);
    assert_eq!(r[0].name, "Debug2");
}

#[test]
fn names_rank_exact_then_prefix_then_short() {
    let (db, _) = test_db();
    let fid = one_file(db.conn(), "m.rs");
    for name in ["do_parse", "parse_all", "reparse", "parse"] {
        named_node(db.conn(), fid, "function", name);
    }
    let r = find_functions_by_fuzzy_name(db.conn(), "parse").unwrap();
    let names: Vec<&str> = r.iter().map(|c| c.name.as_str()).collect();
    assert_eq!(names, vec!["parse", "parse_all", "reparse", "do_parse"]);
}

#[test]
fn the_order_of_words_does_not_matter() {
    let (db, _) = qualified_name_fixture();
    for (one, other) in [
        ("run_migration execute plan", "plan execute run_migration"),
        ("db.execute widen_pool", " widen_pool\n db.execute"),
        ("nothing.here of x", "x of nothing.here"),
        ("the of", "of the"),
    ] {
        let a = fts5_search(db.conn(), one, 10).unwrap();
        let b = fts5_search(db.conn(), other, 10).unwrap();
        let ids = |r: &FtsResult| -> Vec<i64> { r.nodes.iter().map(|n| n.id).collect() };
        assert_eq!(ids(&a), ids(&b), "{one}");
        assert_eq!(a.bm25_scores, b.bm25_scores);
        assert_eq!(a.or_fallback, b.or_fallback);
        assert_eq!(a.cjk_substring_fallback, b.cjk_substring_fallback);
        assert_eq!(a.empty_reason, b.empty_reason);
    }
    let (db, _) = cjk_fixture();
    for query in ["订单 库存", "库存 订单", "\u{3000}库存\u{00A0}订单"] {
        let r = fts5_search(db.conn(), query, 10).unwrap();
        assert_eq!(r.nodes.len(), 1);
        assert!(r.cjk_substring_fallback);
    }
}

#[test]
fn the_scan_without_tests_is_the_scan_with_them_tests_taken_out() {
    let (db, _) = test_db();
    let fid = one_file(db.conn(), "t.py");
    for (i, is_test) in [true, false, true, false].into_iter().enumerate() {
        insert_node(
            db.conn(),
            &NodeRecord {
                file_id: fid,
                node_type: "function".into(),
                name: format!("f{}", i),
                qualified_name: None,
                start_line: 1,
                end_line: 2,
                code_content: "pass".into(),
                signature: None,
                doc_comment: Some("校验库存是否充足".into()),
                context_string: None,
                name_tokens: None,
                return_type: None,
                param_types: None,
                is_test,
            },
        )
        .unwrap();
    }
    let names = |r: &FtsResult| -> Vec<String> { r.nodes.iter().map(|n| n.name.clone()).collect() };
    let all = fts5_search_with_tests(db.conn(), "库存", 10).unwrap();
    assert_eq!(names(&all), vec!["f0", "f1", "f2", "f3"]);
    let r = fts5_search(db.conn(), "库存", 10).unwrap();
    assert_eq!(names(&r), vec!["f1", "f3"]);
    assert!(r.cjk_substring_fallback);
}
