use file_scanner::search::{search_file, search_lines, render_context, new_search_stats, record_searched_file, mark_search_timed_out};
use file_scanner::search::{validate_search_request, SearchRequestError};
use file_scanner::rank::rank_top;

#[test]
fn literal_search_with_context_window() {
    // a five-line file where the third line holds the needle, one line of
    // context on each side
    let content = "alpha\nbeta\nneedle here\ndelta\nepsilon";
    let r = search_file("f.txt", content, "eed", 1).expect("one match expected");
    assert_eq!(r.path, "f.txt");
    assert_eq!(r.matches.len(), 1);
    assert_eq!(r.matches[0].line_number, 3);
    assert_eq!(r.matches[0].context, "   beta\n>> needle here\n   delta");
}

#[test]
fn literal_search_clamps_window_to_file_bounds() {
    let content = "match\nb";
    let r = search_file("f", content, "match", 5).unwrap();
    assert_eq!(r.matches[0].line_number, 1);
    assert_eq!(r.matches[0].context, ">> match\n   b");
}

#[test]
fn literal_search_no_match_yields_nothing() {
    assert!(search_file("f", "aaa\nbbb", "zzz", 1).is_none());
    assert!(search_file("f", "", "zzz", 1).is_none());
}

#[test]
fn literal_search_counts_every_matching_line() {
    let lines = vec!["x".to_string(), "yxz".to_string(), "q".to_string(), "x".to_string()];
    let matches = search_lines(&lines, "x", 0);
    assert_eq!(matches.len(), 3);
    assert_eq!(matches[0].line_number, 1);
    assert_eq!(matches[1].line_number, 2);
    assert_eq!(matches[2].line_number, 4);
    assert_eq!(matches[0].context, ">> x");
}

#[test]
fn context_rendering_marks_only_the_hit_line() {
    let lines = vec!["a".to_string(), "b".to_string(), "c".to_string()];
    assert_eq!(render_context(&lines, 1, 1), "   a\n>> b\n   c");
    assert_eq!(render_context(&lines, 0, 0), ">> a");
}

#[test]
fn search_stats_accumulate() {
    let mut stats = new_search_stats();
    record_searched_file(&mut stats, 3);
    record_searched_file(&mut stats, 0);
    assert_eq!(stats.files_scanned, 2);
    assert_eq!(stats.total_matches, 3);
    assert!(!stats.timed_out);
    mark_search_timed_out(&mut stats);
    assert!(stats.timed_out);
}

#[test]
fn search_request_validation() {
    let exts = vec!["rs".to_string()];
    let none: Vec<String> = Vec::new();
    assert!(matches!(
        validate_search_request("r", "n", &exts, 0),
        Some(SearchRequestError::ZeroTimeout)
    ));
    assert!(matches!(
        validate_search_request("", "n", &exts, 1),
        Some(SearchRequestError::EmptyRoot)
    ));
    assert!(matches!(
        validate_search_request("r", "", &exts, 1),
        Some(SearchRequestError::EmptyNeedle)
    ));
    assert!(matches!(
        validate_search_request("r", "n", &none, 1),
        Some(SearchRequestError::NoExtensions)
    ));
    assert!(validate_search_request("r", "n", &exts, 1).is_none());
}

#[test]
fn ranking_sorts_descending() {
    let scores = vec![10i64, 30, 20];
    assert_eq!(rank_top(&scores, 3), vec![1usize, 2, 0]);
}

#[test]
fn ranking_breaks_ties_by_input_order() {
    let scores = vec![5i64, 7, 5, 7, 5];
    assert_eq!(rank_top(&scores, 5), vec![1usize, 3, 0, 2, 4]);
}

#[test]
fn ranking_truncates_to_top_n() {
    let scores = vec![1i64, 9, 3, 7];
    assert_eq!(rank_top(&scores, 2), vec![1usize, 3]);
}

#[test]
fn ranking_returns_all_when_more_requested() {
    let scores = vec![4i64, 4];
    assert_eq!(rank_top(&scores, 10), vec![0usize, 1]);
    assert_eq!(rank_top(&Vec::new(), 3), Vec::<usize>::new());
}
