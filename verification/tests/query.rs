use issue_cache::db::{init_db, insert_issue, Store, StoreError};
use issue_cache::models::Issue;
use issue_cache::server::{
    clamp_page, get_issues, total_pages, PaginationParams, DEFAULT_MIN_STARS, MAX_PAGE, PER_PAGE,
};

fn filled_store(n: usize, star_count: i64) -> Store {
    let mut store = Store::new();
    assert_eq!(init_db(&mut store), Ok(()));
    for k in 0..n {
        let issue = Issue {
            id: 0,
            repo_name: String::from("org/repo"),
            url: format!("u{}", k),
            creator: String::from("alice"),
            created_at: format!("2024-01-01T{:02}:{:02}:00Z", k / 60, k % 60),
            title: String::from("t"),
            labels: String::new(),
            star_count,
        };
        assert_eq!(insert_issue(&mut store, &issue), Ok(()));
    }
    store
}

#[test]
fn constants_of_the_query_service() {
    assert_eq!(MAX_PAGE, 4);
    assert_eq!(PER_PAGE, 30);
    assert_eq!(DEFAULT_MIN_STARS, 50);
}

#[test]
fn page_defaults_to_one() {
    assert_eq!(clamp_page(None), 1);
}

#[test]
fn page_is_clamped_into_range() {
    assert_eq!(clamp_page(Some(0)), 1);
    assert_eq!(clamp_page(Some(-1)), 1);
    assert_eq!(clamp_page(Some(i64::MIN)), 1);
    assert_eq!(clamp_page(Some(999)), 4);
    assert_eq!(clamp_page(Some(5)), 4);
    assert_eq!(clamp_page(Some(i64::MAX)), 4);
    for p in 1..=4 {
        assert_eq!(clamp_page(Some(p)), p);
    }
}

#[test]
fn total_pages_is_the_ceiling() {
    assert_eq!(total_pages(0, 30), 0);
    assert_eq!(total_pages(1, 30), 1);
    assert_eq!(total_pages(29, 30), 1);
    assert_eq!(total_pages(30, 30), 1);
    assert_eq!(total_pages(31, 30), 2);
    assert_eq!(total_pages(60, 30), 2);
    assert_eq!(total_pages(61, 30), 3);
    assert_eq!(total_pages(7, 1), 7);
    assert_eq!(total_pages(i64::MAX, 1), i64::MAX);
    assert_eq!(total_pages(i64::MAX, i64::MAX), 1);
    assert_eq!(total_pages(i64::MAX, 30), 307445734561825861);
}

#[test]
fn empty_store_gives_an_empty_first_page() {
    let store = filled_store(0, 0);
    let resp = get_issues(&store, &PaginationParams { page: Some(1), min_stars: None }).unwrap();
    assert!(resp.issues.is_empty());
    assert_eq!(resp.total_count, 0);
    assert_eq!(resp.total_pages, 0);
    assert_eq!(resp.page, 1);
    assert_eq!(resp.per_page, 30);
}

#[test]
fn default_threshold_is_fifty_stars() {
    let mut store = filled_store(3, 49);
    let popular = Issue {
        id: 0,
        repo_name: String::from("org/big"),
        url: String::from("big"),
        creator: String::from("bob"),
        created_at: String::from("2020-01-01T00:00:00Z"),
        title: String::from("t"),
        labels: String::new(),
        star_count: 50,
    };
    assert_eq!(insert_issue(&mut store, &popular), Ok(()));
    let resp = get_issues(&store, &PaginationParams { page: None, min_stars: None }).unwrap();
    assert_eq!(resp.total_count, 1);
    assert_eq!(resp.total_pages, 1);
    assert_eq!(resp.issues.len(), 1);
    assert_eq!(resp.issues[0].url, "big");
    assert_eq!(resp.issues[0].id, 4);
    let resp = get_issues(&store, &PaginationParams { page: None, min_stars: Some(0) }).unwrap();
    assert_eq!(resp.total_count, 4);
}

#[test]
fn far_pages_resolve_to_the_last_allowed_page() {
    let store = filled_store(100, 80);
    let far = get_issues(&store, &PaginationParams { page: Some(999), min_stars: Some(0) }).unwrap();
    let last = get_issues(&store, &PaginationParams { page: Some(4), min_stars: Some(0) }).unwrap();
    assert_eq!(far, last);
    assert_eq!(far.page, 4);
    assert_eq!(far.total_count, 100);
    assert_eq!(far.total_pages, 4);
    assert_eq!(far.issues.len(), 10);
    assert_eq!(far.issues[9].url, "u0");
    let low = get_issues(&store, &PaginationParams { page: Some(-3), min_stars: Some(0) }).unwrap();
    let first = get_issues(&store, &PaginationParams { page: Some(1), min_stars: Some(0) }).unwrap();
    assert_eq!(low, first);
    assert_eq!(low.page, 1);
    assert_eq!(low.issues.len(), 30);
    assert_eq!(low.issues[0].url, "u99");
    let zero = get_issues(&store, &PaginationParams { page: Some(0), min_stars: Some(0) }).unwrap();
    assert_eq!(zero, first);
}

#[test]
fn total_pages_may_exceed_the_last_allowed_page() {
    let store = filled_store(130, 80);
    let resp = get_issues(&store, &PaginationParams { page: Some(7), min_stars: None }).unwrap();
    assert_eq!(resp.page, 4);
    assert_eq!(resp.total_count, 130);
    assert_eq!(resp.total_pages, 5);
    assert_eq!(resp.issues.len(), 30);
}

#[test]
fn store_failure_is_an_error_not_an_empty_page() {
    let store = Store::new();
    let r = get_issues(&store, &PaginationParams { page: None, min_stars: None });
    assert_eq!(r, Err(StoreError::NotInitialized));
}
