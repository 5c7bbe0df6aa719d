use scholar_rss::openalex::{Work, WorksResponse};
use scholar_rss::works::{fetch_works, merge_works};

fn work(id: Option<&str>, date: Option<&str>) -> Work {
    Work {
        id: id.map(|text| text.to_string()),
        publication_date: date.map(|text| text.to_string()),
        ..Work::default()
    }
}

fn ids(works: &[Work]) -> Vec<Option<String>> {
    works.iter().map(|w| w.id.clone()).collect()
}

#[test]
fn merge_dedupes_by_id_across_both_sets() {
    let primary = vec![work(Some("W1"), Some("2025-01-01")), work(Some("W2"), Some("2025-03-01"))];
    let secondary = vec![work(Some("W2"), Some("2025-03-01")), work(Some("W3"), Some("2025-02-01"))];

    let merged = merge_works(primary, secondary);

    // W2 appears once; result sorted newest-first: W2 (03), W3 (02), W1 (01).
    assert_eq!(
        ids(&merged),
        vec![
            Some("W2".to_string()),
            Some("W3".to_string()),
            Some("W1".to_string())
        ]
    );
}

#[test]
fn merge_keeps_items_without_id_and_puts_missing_dates_last() {
    let primary = vec![work(None, Some("2025-05-01")), work(None, None)];
    let secondary = vec![work(Some("W9"), None)];

    let merged = merge_works(primary, secondary);

    assert_eq!(merged.len(), 3);
    // The dated item comes first; the two date-less items follow.
    assert_eq!(merged[0].publication_date.as_deref(), Some("2025-05-01"));
    assert!(merged[1].publication_date.is_none());
    assert!(merged[2].publication_date.is_none());
}

#[test]
fn works_of_one_date_stay_in_their_order() {
    let primary = vec![work(Some("A"), Some("2025-01-01")), work(Some("B"), Some("2025-02-01"))];
    let secondary = vec![work(Some("C"), Some("2025-01-01")), work(Some("D"), Some("2025-02-01"))];
    let merged = merge_works(primary, secondary);
    assert_eq!(
        ids(&merged),
        vec![
            Some("B".to_string()),
            Some("D".to_string()),
            Some("A".to_string()),
            Some("C".to_string())
        ]
    );
}

#[test]
fn the_first_work_of_an_id_is_the_one_that_stays() {
    let primary = vec![work(Some("W"), Some("2024-01-01"))];
    let secondary = vec![work(Some("W"), Some("2025-01-01")), work(None, Some("2023-01-01"))];
    let merged = merge_works(primary, secondary);
    assert_eq!(merged.len(), 2);
    assert_eq!(merged[0].publication_date.as_deref(), Some("2024-01-01"));
    assert_eq!(merged[1].id, None);
}

#[test]
fn equal_works_without_an_id_are_all_kept() {
    let merged = merge_works(vec![work(None, None), work(None, None)], vec![work(None, None)]);
    assert_eq!(merged.len(), 3);
}

#[test]
fn an_empty_date_counts_as_a_missing_one() {
    let merged = merge_works(
        vec![work(Some("A"), None), work(Some("B"), Some(""))],
        vec![work(Some("C"), Some("2020-01-01"))],
    );
    assert_eq!(
        ids(&merged),
        vec![Some("C".to_string()), Some("A".to_string()), Some("B".to_string())]
    );
}

#[test]
fn unanswered_queries_add_no_works() {
    assert_eq!(fetch_works(None, None).len(), 0);
    let reply = WorksResponse { results: vec![work(Some("W1"), Some("2025-01-01"))] };
    let works = fetch_works(None, Some(reply));
    assert_eq!(ids(&works), vec![Some("W1".to_string())]);
}

#[test]
fn both_queries_are_united() {
    let authors = WorksResponse { results: vec![work(Some("W1"), Some("2025-01-01"))] };
    let journals = WorksResponse {
        results: vec![work(Some("W1"), Some("2025-01-01")), work(Some("W2"), Some("2025-06-01"))],
    };
    let works = fetch_works(Some(authors), Some(journals));
    assert_eq!(ids(&works), vec![Some("W2".to_string()), Some("W1".to_string())]);
}
