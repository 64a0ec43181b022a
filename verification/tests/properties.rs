use bangs::bang::{Bang, BangMetadata};
use bangs::config::{AppConfig, BytesCollector};
use bangs::database::Database;
use bangs::index::SearchIndex;
use bangs::query::{join_spaced, tokenize_str};
use bangs::session::{App, Request, Response};

fn record(trigger: &str, url: &str, title: &str, relevance: u64) -> Bang {
    Bang {
        trigger: trigger.to_string(),
        url: url.to_string(),
        title: title.to_string(),
        category: "Web".to_string(),
        sub_category: "Search".to_string(),
        relevance,
        metadata: BangMetadata {
            netloc: "example.com".to_string(),
            hostname: None,
            favicon: None,
            scheme: "https".to_string(),
            path: String::new(),
        },
    }
}

fn engine(records: Vec<Bang>, unique: bool, defaults: Vec<String>) -> App {
    let config = AppConfig {
        db_url: AppConfig::default_db(),
        max_limit: 12,
        default_bangs: defaults,
        unique_bangs: unique,
    };
    App::new(config, records)
}

fn small_catalog() -> Vec<Bang> {
    vec![
        record("g", "https://g.example/?q={query}", "G Search", 10),
        record("ddg", "https://d.example/?q={query}", "D Search", 5),
    ]
}

#[test]
fn free_text_final_token_emits_finish_item() {
    let mut app = engine(small_catalog(), false, Vec::new());
    let out = app.search("!g hello");
    assert_eq!(out.len(), 2);
    assert!(matches!(&out[0], Response::Append { id: 1, name, .. } if name == "Finish"));
    assert!(matches!(&out[1], Response::Finished));
    assert_eq!(app.results.len(), 0);
    assert!(app.finish_only);
    assert_eq!(app.search, vec!["!g".to_string(), "hello".to_string()]);
}

#[test]
fn open_trigger_token_suggests_in_rank_order() {
    let mut app = engine(small_catalog(), false, Vec::new());
    let out = app.search("!g");
    // "g" is a substring of both searchable texts; the higher-relevance
    // record comes first and identifiers count from 1 in that order.
    assert_eq!(app.results, vec!["g".to_string(), "ddg".to_string()]);
    assert_eq!(out.len(), 3);
    assert!(matches!(&out[0], Response::Append { id: 1, .. }));
    assert!(matches!(&out[1], Response::Append { id: 2, .. }));
    assert!(matches!(&out[2], Response::Finished));
    assert!(!app.finish_only);
}

#[test]
fn activate_substitutes_encoded_query() {
    let mut app = engine(small_catalog(), false, Vec::new());
    let _ = app.search("!g hello");
    let (urls, responses) = app.activate(1);
    assert_eq!(urls, vec!["https://g.example/?q=hello".to_string()]);
    assert_eq!(responses.len(), 1);
    assert!(matches!(&responses[0], Response::Close));
}

#[test]
fn duplicate_destinations_collapse_to_highest_relevance() {
    let records = vec![
        record("low", "https://same.example/?q={query}", "Low", 5),
        record("high", "https://same.example/?q={query}", "High", 10),
    ];
    let app = engine(records, true, Vec::new());
    assert_eq!(app.db.len(), 1);
    assert!(app.db.get("high").is_some());
    assert!(app.db.get("low").is_none());
}

#[test]
fn dedup_leaves_distinct_destinations() {
    let records = vec![
        record("a", "https://one.example/?q={query}", "A", 9),
        record("b", "https://one.example/?q={query}", "B", 7),
        record("c", "https://two.example/?q={query}", "C", 5),
    ];
    let app = engine(records, true, Vec::new());
    assert_eq!(app.db.len(), 2);
    let urls: Vec<String> = app.db.iter().iter().map(|b| b.url.clone()).collect();
    assert_eq!(urls.len(), 2);
    assert!(urls[0] != urls[1]);
}

#[test]
fn complete_on_empty_table_is_a_noop() {
    let mut app = engine(small_catalog(), false, Vec::new());
    let _ = app.search("!g hello");
    assert_eq!(app.results.len(), 0);
    let out = app.complete(1);
    assert_eq!(out.len(), 0);
    assert_eq!(app.search, vec!["!g".to_string(), "hello".to_string()]);
    assert_eq!(app.results.len(), 0);
}

#[test]
fn complete_with_stale_id_is_a_noop() {
    let mut app = engine(small_catalog(), false, Vec::new());
    let _ = app.search("!g");
    assert_eq!(app.results.len(), 2);
    let out = app.complete(99);
    assert_eq!(out.len(), 0);
    assert_eq!(app.search, vec!["!g".to_string()]);
    assert_eq!(app.results.len(), 2);
}

#[test]
fn complete_closes_the_open_token_and_fills() {
    let mut app = engine(small_catalog(), false, Vec::new());
    let _ = app.search("!dd");
    assert_eq!(app.results, vec!["ddg".to_string()]);
    let out = app.complete(1);
    assert_eq!(out.len(), 1);
    assert!(matches!(&out[0], Response::Fill(text) if text == "!ddg"));
    assert_eq!(app.search, vec!["!ddg".to_string()]);
}

#[test]
fn empty_needle_returns_min_of_limit_and_size() {
    let records = vec![
        record("one", "https://1.example/?q={query}", "One", 30),
        record("two", "https://2.example/?q={query}", "Two", 20),
        record("three", "https://3.example/?q={query}", "Three", 10),
    ];
    let db = Database::load(records, false);
    let index = SearchIndex::build(&db);
    assert_eq!(index.len(), 3);
    let capped = index.search("", 2);
    assert_eq!(capped, vec!["one".to_string(), "two".to_string()]);
    let all = index.search("", 10);
    assert_eq!(
        all,
        vec!["one".to_string(), "two".to_string(), "three".to_string()]
    );
    assert_eq!(index.search("", 0).len(), 0);
}

#[test]
fn search_returns_only_substring_matches_in_order() {
    let records = vec![
        record("wiki", "https://w.example/?q={query}", "Wikipedia", 30),
        record("gh", "https://h.example/?q={query}", "GitHub", 20),
        record("wiktionary", "https://t.example/?q={query}", "Wiktionary", 10),
    ];
    let db = Database::load(records, false);
    let index = SearchIndex::build(&db);
    let found = index.search("wik", 12);
    assert_eq!(found, vec!["wiki".to_string(), "wiktionary".to_string()]);
    assert_eq!(index.search("zzz", 12).len(), 0);
}

#[test]
fn needle_and_index_are_case_folded() {
    let records = vec![record("d", "https://d.example/?q={query}", "DuckDuckGo", 5)];
    let mut app = engine(records, false, Vec::new());
    // The stored text is folded at build time and the candidate at query
    // time; "duckduckgo" only matches the "DuckDuckGo" title after folding.
    let _ = app.search("!duckduckgo");
    assert_eq!(app.results, vec!["d".to_string()]);
}

#[test]
fn free_text_is_url_encoded_into_the_template() {
    let mut app = engine(small_catalog(), false, Vec::new());
    let _ = app.search("!g hello world");
    let (urls, _) = app.activate(1);
    assert_eq!(urls, vec!["https://g.example/?q=hello%20world".to_string()]);
}

#[test]
fn tokenization_normalizes_whitespace_and_round_trips() {
    let tokens = tokenize_str("  !g \t hello \n world ");
    assert_eq!(
        tokens,
        vec!["!g".to_string(), "hello".to_string(), "world".to_string()]
    );
    let joined = join_spaced(&tokens);
    assert_eq!(joined, "!g hello world");
    assert_eq!(tokenize_str(&joined), tokens);
    assert_eq!(tokenize_str("").len(), 0);
    assert_eq!(tokenize_str("   ").len(), 0);
}

#[test]
fn display_strings_have_exact_shape() {
    let b = record("g", "https://g.example/?q={query}", "G Search", 10);
    assert_eq!(b.format(), "g G Search Web Search example.com");
    assert_eq!(b.name(), "g | G Search (example.com)");
    assert_eq!(b.description(), "Web > Search");
}

#[test]
fn catalog_sorts_descending_by_relevance() {
    let records = vec![
        record("low", "https://1.example/?q={query}", "Low", 1),
        record("high", "https://2.example/?q={query}", "High", 9),
        record("mid", "https://3.example/?q={query}", "Mid", 4),
    ];
    let db = Database::load(records, false);
    let order: Vec<String> = db.iter().iter().map(|b| b.trigger.clone()).collect();
    assert_eq!(
        order,
        vec!["high".to_string(), "mid".to_string(), "low".to_string()]
    );
}

#[test]
fn retain_keeps_only_accepted_records() {
    let mut db = Database::load(small_catalog(), false);
    db.retain(|b| b.relevance >= 10);
    let kept: Vec<String> = db.iter().iter().map(|b| b.trigger.clone()).collect();
    assert_eq!(kept, vec!["g".to_string()]);
}

#[test]
fn get_is_exact_and_returns_the_first_in_rank_order() {
    let records = vec![
        record("x", "https://1.example/?q={query}", "First", 10),
        record("x", "https://2.example/?q={query}", "Second", 5),
    ];
    let db = Database::load(records, false);
    let found = db.get("x").expect("trigger should resolve");
    assert_eq!(found.url, "https://1.example/?q={query}");
    assert!(db.get("X").is_none());
    assert!(db.get("xy").is_none());
}

#[test]
fn result_limit_caps_suggestions() {
    let config = AppConfig {
        db_url: AppConfig::default_db(),
        max_limit: 1,
        default_bangs: Vec::new(),
        unique_bangs: false,
    };
    let mut app = App::new(config, small_catalog());
    let out = app.search("!g");
    assert_eq!(app.results, vec!["g".to_string()]);
    assert_eq!(out.len(), 2);
    assert!(matches!(&out[1], Response::Finished));
}

#[test]
fn activate_falls_back_to_default_bangs() {
    let mut app = engine(small_catalog(), false, vec!["ddg".to_string()]);
    let _ = app.search("hello");
    let (urls, _) = app.activate(1);
    assert_eq!(urls, vec!["https://d.example/?q=hello".to_string()]);
}

#[test]
fn activate_skips_unresolved_triggers() {
    let mut app = engine(small_catalog(), false, Vec::new());
    let _ = app.search("!zz !g hello");
    let (urls, responses) = app.activate(1);
    assert_eq!(urls, vec!["https://g.example/?q=hello".to_string()]);
    assert!(matches!(&responses[0], Response::Close));
}

#[test]
fn handle_dispatches_and_signals_exit() {
    let mut app = engine(small_catalog(), false, Vec::new());
    let searched = app.handle(Request::Search("!g".to_string()));
    assert!(!searched.exit);
    assert_eq!(searched.open_urls.len(), 0);
    assert!(matches!(
        searched.responses.last(),
        Some(Response::Finished)
    ));
    let other = app.handle(Request::Other);
    assert!(!other.exit);
    assert_eq!(other.responses.len(), 0);
    let exited = app.handle(Request::Exit);
    assert!(exited.exit);
    assert_eq!(exited.responses.len(), 0);
}

#[test]
fn empty_catalog_yields_no_matches() {
    let mut app = engine(Vec::new(), false, Vec::new());
    let out = app.search("!anything");
    assert_eq!(app.results.len(), 0);
    assert_eq!(out.len(), 2);
    assert!(matches!(&out[0], Response::Append { id: 1, name, .. } if name == "Finish"));
    let (urls, _) = app.activate(1);
    assert_eq!(urls.len(), 0);
}

#[test]
fn bytes_collector_accumulates_chunks() {
    let mut collector = BytesCollector::new();
    assert_eq!(collector.push_chunk(b"abc"), 3);
    assert_eq!(collector.push_chunk(b"de"), 2);
    assert_eq!(collector.0, b"abcde".to_vec());
}

#[test]
fn default_config_matches_builtins() {
    let config = AppConfig::default();
    assert_eq!(config.db_url, "https://search.brave.com/bang/data");
    assert_eq!(config.max_limit, 12);
    assert_eq!(config.default_bangs.len(), 0);
    assert!(!config.unique_bangs);
    assert_eq!(AppConfig::max_limit(), 12);
    assert!(!AppConfig::unique_bangs());
}
