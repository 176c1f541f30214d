use resona::search::{append_new_hits, broad_match_budget, query_is_searchable, SearchResult};

fn hit(id: &str, score: f32) -> SearchResult<f32> {
    SearchResult {
        track_id: id.to_string(),
        score,
        title: format!("title {id}"),
        artist: String::new(),
        album: String::new(),
    }
}

#[test]
fn blank_queries_are_not_searched() {
    assert!(!query_is_searchable(""));
    assert!(!query_is_searchable("  \t\n"));
    assert!(query_is_searchable(" abba "));
}

#[test]
fn broad_matches_fill_the_remaining_limit() {
    assert_eq!(broad_match_budget(0, 10), Some(10));
    assert_eq!(broad_match_budget(3, 10), Some(7));
    assert_eq!(broad_match_budget(10, 10), None);
}

#[test]
fn broad_matches_skip_tracks_already_found() {
    let mut results = vec![hit("a", 3.0), hit("b", 2.0)];
    append_new_hits(&mut results, vec![hit("b", 9.0), hit("c", 1.0), hit("c", 0.5), hit("d", 4.0)]);
    let ids: Vec<&str> = results.iter().map(|r| r.track_id.as_str()).collect();
    assert_eq!(ids, vec!["a", "b", "c", "d"]);
    assert_eq!(results[1].score, 2.0);
    assert_eq!(results[2].score, 1.0);
    assert_eq!(results[2].title, "title c");
}

#[test]
fn no_candidates_leave_results_unchanged() {
    let mut results = vec![hit("a", 1.0)];
    append_new_hits(&mut results, Vec::new());
    assert_eq!(results.len(), 1);
}
