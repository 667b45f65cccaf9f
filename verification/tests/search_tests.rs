use bibr::config::SearchConfig;
use bibr::domain::fields::FieldMap;
use bibr::domain::{Bibliography, Entry, EntryId, Provenance};
use bibr::search::{smart_case, CaseSensitivity, Query, QueryTerm, SearchEngine, SearchResult};

fn entry(id: &str, pairs: &[(&str, &str)]) -> Entry {
    Entry {
        id: EntryId::from(id),
        entry_type: "article".to_string(),
        fields: FieldMap::from_pairs(pairs.iter().map(|(k, v)| (k.to_string(), v.to_string())).collect()),
        provenance: Provenance { file_path: "library.bib".to_string(), line_start: 1, line_end: 1, byte_start: 0, byte_end: 0 },
    }
}

fn library() -> Bibliography {
    let mut bib = Bibliography::new();
    bib.add_entry(entry("knuth1984", &[("author", "Knuth, Donald E."), ("title", "Literate Programming"), ("year", "1984"), ("journal", "The Computer Journal")])).unwrap();
    bib.add_entry(entry("hopper1952", &[("author", "Hopper, Grace"), ("title", "The Education of a Computer"), ("year", "1952")])).unwrap();
    bib.add_entry(entry("turing1936", &[("author", "Turing, Alan"), ("title", "On Computable Numbers"), ("year", "1936")])).unwrap();
    bib
}

fn result_ids(results: Vec<SearchResult>) -> Vec<String> {
    results.into_iter().map(|result| result.entry_id.0).collect()
}

fn substring() -> SearchConfig {
    SearchConfig { smart_case: true, fuzzy: false, search_all_fields: true }
}

#[test]
fn parses_plain_query() {
    assert_eq!(Query::parse("machine learning"), Query { terms: vec![QueryTerm::Plain("machine learning".to_string())] });
}

#[test]
fn parses_field_qualified_query() {
    assert_eq!(
        Query::parse("@title: machine learning"),
        Query { terms: vec![QueryTerm::Field { field: "title".to_string(), text: "machine learning".to_string() }] }
    );
}

#[test]
fn parses_multiple_qualified_terms() {
    assert_eq!(
        Query::parse("@author: smith @year: 2023"),
        Query {
            terms: vec![
                QueryTerm::Field { field: "author".to_string(), text: "smith".to_string() },
                QueryTerm::Field { field: "year".to_string(), text: "2023".to_string() },
            ],
        }
    );
}

#[test]
fn parses_leading_plain_text_before_qualifier() {
    assert_eq!(
        Query::parse("compiler @year: 1952"),
        Query {
            terms: vec![
                QueryTerm::Plain("compiler".to_string()),
                QueryTerm::Field { field: "year".to_string(), text: "1952".to_string() },
            ],
        }
    );
}

#[test]
fn blank_query_has_no_terms() {
    assert_eq!(Query::parse("   "), Query { terms: vec![] });
}

#[test]
fn smart_case_is_insensitive_for_lowercase_queries() {
    assert_eq!(smart_case("machine learning"), CaseSensitivity::Insensitive);
}

#[test]
fn smart_case_is_sensitive_when_uppercase_is_present() {
    assert_eq!(smart_case("Machine learning"), CaseSensitivity::Sensitive);
}

#[test]
fn empty_query_returns_all_entries() {
    let bibliography = library();
    let engine = SearchEngine::new(SearchConfig { smart_case: true, fuzzy: true, search_all_fields: true });
    let results = engine.search(&bibliography, &Query::parse("   "));
    assert_eq!(results.len(), bibliography.len());
    assert_eq!(result_ids(results), vec!["hopper1952", "knuth1984", "turing1936"]);
}

#[test]
fn plain_search_matches_entries() {
    let engine = SearchEngine::new(substring());
    let results = engine.search(&library(), &Query::parse("literate"));
    assert_eq!(result_ids(results), vec!["knuth1984"]);
}

#[test]
fn field_specific_search_only_checks_requested_field() {
    let engine = SearchEngine::new(substring());
    let title_results = engine.search(&library(), &Query::parse("@title: education"));
    let author_results = engine.search(&library(), &Query::parse("@author: education"));
    assert_eq!(result_ids(title_results), vec!["hopper1952"]);
    assert!(author_results.is_empty());
}

#[test]
fn combined_queries_use_and_logic() {
    let engine = SearchEngine::new(SearchConfig { smart_case: true, fuzzy: true, search_all_fields: true });
    let results = engine.search(&library(), &Query::parse("@author: knuth @year: 1984"));
    assert_eq!(result_ids(results), vec!["knuth1984"]);
    let none = engine.search(&library(), &Query::parse("@author: knuth @year: 1952"));
    assert!(none.is_empty());
}

#[test]
fn smart_case_can_be_disabled_in_config() {
    let engine = SearchEngine::new(SearchConfig { smart_case: false, fuzzy: true, search_all_fields: true });
    let results = engine.search(&library(), &Query::parse("@author: KNUTH"));
    assert_eq!(result_ids(results), vec!["knuth1984"]);
}

#[test]
fn uppercase_query_is_case_sensitive_with_smart_case() {
    let engine = SearchEngine::new(substring());
    assert!(engine.search(&library(), &Query::parse("@author: KNUTH")).is_empty());
    assert_eq!(result_ids(engine.search(&library(), &Query::parse("@author: Knuth"))), vec!["knuth1984"]);
}

#[test]
fn disabling_fuzzy_search_falls_back_to_substring_matching() {
    let fuzzy_engine = SearchEngine::new(SearchConfig { smart_case: true, fuzzy: true, search_all_fields: true });
    let substring_engine = SearchEngine::new(substring());
    let query = Query::parse("ltr prgrmmng");
    assert_eq!(result_ids(fuzzy_engine.search(&library(), &query)), vec!["knuth1984"]);
    assert!(substring_engine.search(&library(), &query).is_empty());
}

#[test]
fn results_are_ranked_by_relevance() {
    let engine = SearchEngine::new(SearchConfig { smart_case: true, fuzzy: true, search_all_fields: true });
    let results = engine.search(&library(), &Query::parse("computer"));
    for pair in results.windows(2) {
        assert!(pair[0].score > pair[1].score || (pair[0].score == pair[1].score && pair[0].entry_id.0 <= pair[1].entry_id.0));
    }
    let ids = result_ids(results);
    assert!(ids.contains(&"hopper1952".to_string()));
    assert!(ids.contains(&"knuth1984".to_string()));
}

#[test]
fn checked_search_refuses_terms_with_too_many_words() {
    let engine = SearchEngine::new(substring());
    let long_word = "a".repeat(70_000);
    assert_eq!(engine.search_checked(&library(), &Query::parse(&long_word)), Some(vec![]));
    let many_words = "a ".repeat(65_538);
    assert!(engine.search_checked(&library(), &Query::parse(&many_words)).is_none());
    let enough_words = "o ".repeat(65_537);
    assert_eq!(engine.search_checked(&library(), &Query::parse(&enough_words)).map(|r| r.len()), Some(3));
    assert!(engine.search_checked(&library(), &Query::parse("turing")).is_some());
}

#[test]
fn parsed_terms_are_trimmed_and_never_blank() {
    assert_eq!(
        Query::parse("  lovelace   @title:   notes   @year:   "),
        Query {
            terms: vec![
                QueryTerm::Plain("lovelace".to_string()),
                QueryTerm::Field { field: "title".to_string(), text: "notes".to_string() },
            ]
        }
    );
}

#[test]
fn adding_a_term_only_narrows_the_results() {
    let engine = SearchEngine::new(substring());
    let bib = library();
    let wide = result_ids(engine.search(&bib, &Query::parse("comput")));
    let narrow = result_ids(engine.search(&bib, &Query::parse("comput @year: 19")));
    let narrower = result_ids(engine.search(&bib, &Query::parse("comput @year: 19 @author: turing")));
    assert!(narrow.iter().all(|id| wide.contains(id)));
    assert!(narrower.iter().all(|id| narrow.contains(id)));
    assert_eq!(narrower, vec!["turing1936".to_string()]);
}

#[test]
fn each_entry_is_found_at_most_once() {
    let engine = SearchEngine::new(substring());
    let ids = result_ids(engine.search(&library(), &Query::parse("o")));
    let mut sorted = ids.clone();
    sorted.sort();
    sorted.dedup();
    assert_eq!(sorted.len(), ids.len());
    assert_eq!(ids.len(), 3);
}
