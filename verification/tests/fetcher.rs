use issue_cache::db::{
    get_paginated_issues, get_stargazer_count, init_db, upsert_stargazer_count_at, Store, StoreError,
};
use issue_cache::github_api::{
    flatten_labels, ingest_item, normalize, IngestOutcome,
};
use issue_cache::models::{GitHubIssue, GitHubLabel, GitHubUser, Issue, RepositoryInfo};

fn label(name: &str) -> GitHubLabel {
    GitHubLabel { name: String::from(name) }
}

fn descriptor(n: u32, repo: &str, labels: &[&str]) -> GitHubIssue {
    GitHubIssue {
        url: format!("https://api.example/repos/{}/issues/{}", repo, n),
        title: format!("issue {}", n),
        user: GitHubUser { login: String::from("carol") },
        created_at: format!("2024-02-{:02}T12:00:00Z", n),
        labels: labels.iter().map(|l| label(l)).collect(),
        repository_url: format!("https://api.example/repos/{}", repo),
    }
}

fn ready_store() -> Store {
    let mut store = Store::new();
    assert_eq!(init_db(&mut store), Ok(()));
    store
}

#[test]
fn labels_are_joined_by_commas() {
    assert_eq!(flatten_labels(&vec![]), "");
    assert_eq!(flatten_labels(&vec![label("bug")]), "bug");
    assert_eq!(flatten_labels(&vec![label("bug"), label("help wanted")]), "bug,help wanted");
    assert_eq!(flatten_labels(&vec![label("a"), label(""), label("c")]), "a,,c");
    assert_eq!(flatten_labels(&vec![label(""), label("")]), ",");
}

#[test]
fn normalize_copies_the_descriptor() {
    let d = descriptor(3, "org/repo", &["bug", "good first issue"]);
    let got = normalize(&d, 321);
    let want = Issue {
        id: 0,
        repo_name: String::from("https://api.example/repos/org/repo"),
        url: String::from("https://api.example/repos/org/repo/issues/3"),
        creator: String::from("carol"),
        created_at: String::from("2024-02-03T12:00:00Z"),
        title: String::from("issue 3"),
        labels: String::from("bug,good first issue"),
        star_count: 321,
    };
    assert_eq!(got, want);
}

#[test]
fn cold_cache_asks_for_a_lookup() {
    let mut store = ready_store();
    let d = descriptor(1, "org/repo", &[]);
    assert_eq!(ingest_item(&mut store, &d, None), Ok(IngestOutcome::NeedsLookup));
    assert_eq!(get_paginated_issues(&store, 1, 30, i64::MIN), Ok((vec![], 0)));
    assert_eq!(get_stargazer_count(&store, &d.repository_url), Ok(None));
}

#[test]
fn lookup_result_is_cached_and_attached() {
    let mut store = ready_store();
    let d = descriptor(1, "org/repo", &["bug"]);
    let info = RepositoryInfo { stargazers_count: 77 };
    assert_eq!(ingest_item(&mut store, &d, Some(info)), Ok(IngestOutcome::Stored));
    let cached = get_stargazer_count(&store, &d.repository_url).unwrap().unwrap();
    assert_eq!(cached.star_count, 77);
    assert_eq!(cached.repo_name, d.repository_url);
    let (rows, total) = get_paginated_issues(&store, 1, 30, 0).unwrap();
    assert_eq!(total, 1);
    let mut want = normalize(&d, 77);
    want.id = 1;
    assert_eq!(rows, vec![want]);
}

#[test]
fn warm_cache_needs_no_lookup() {
    let mut store = ready_store();
    let d = descriptor(2, "org/repo", &[]);
    assert_eq!(upsert_stargazer_count_at(&mut store, &d.repository_url, 500, String::from("t0")), Ok(()));
    assert_eq!(ingest_item(&mut store, &d, None), Ok(IngestOutcome::Stored));
    let (rows, _) = get_paginated_issues(&store, 1, 30, 0).unwrap();
    assert_eq!(rows.len(), 1);
    assert_eq!(rows[0].star_count, 500);
}

#[test]
fn cached_count_wins_over_a_supplied_one() {
    let mut store = ready_store();
    let d = descriptor(2, "org/repo", &[]);
    assert_eq!(upsert_stargazer_count_at(&mut store, &d.repository_url, 500, String::from("t0")), Ok(()));
    let info = RepositoryInfo { stargazers_count: 9 };
    assert_eq!(ingest_item(&mut store, &d, Some(info)), Ok(IngestOutcome::Stored));
    let cached = get_stargazer_count(&store, &d.repository_url).unwrap().unwrap();
    assert_eq!((cached.star_count, cached.updated_at.as_str()), (500, "t0"));
    let (rows, _) = get_paginated_issues(&store, 1, 30, 0).unwrap();
    assert_eq!(rows[0].star_count, 500);
}

#[test]
fn ingest_before_init_is_refused() {
    let mut store = Store::new();
    let d = descriptor(1, "org/repo", &[]);
    let info = RepositoryInfo { stargazers_count: 9 };
    assert_eq!(ingest_item(&mut store, &d, Some(info)), Err(StoreError::NotInitialized));
    assert_eq!(ingest_item(&mut store, &d, None), Err(StoreError::NotInitialized));
}

#[test]
fn second_cycle_over_the_same_response_adds_nothing() {
    let mut store = ready_store();
    let batch = vec![
        descriptor(1, "org/a", &["bug"]),
        descriptor(2, "org/a", &[]),
        descriptor(3, "org/b", &["docs", "easy"]),
        descriptor(1, "org/a", &["bug"]),
    ];
    let mut lookups = 0;
    for d in batch.iter() {
        if ingest_item(&mut store, d, None) == Ok(IngestOutcome::NeedsLookup) {
            lookups += 1;
            let info = RepositoryInfo { stargazers_count: 60 };
            assert_eq!(ingest_item(&mut store, d, Some(info)), Ok(IngestOutcome::Stored));
        }
    }
    assert_eq!(lookups, 2);
    let first = get_paginated_issues(&store, 1, 30, i64::MIN).unwrap();
    assert_eq!(first.1, 3);
    let stars_a = get_stargazer_count(&store, "https://api.example/repos/org/a").unwrap();
    let stars_b = get_stargazer_count(&store, "https://api.example/repos/org/b").unwrap();
    for d in batch.iter() {
        assert_eq!(ingest_item(&mut store, d, None), Ok(IngestOutcome::Stored));
    }
    let second = get_paginated_issues(&store, 1, 30, i64::MIN).unwrap();
    assert_eq!(second, first);
    assert_eq!(get_stargazer_count(&store, "https://api.example/repos/org/a").unwrap(), stars_a);
    assert_eq!(get_stargazer_count(&store, "https://api.example/repos/org/b").unwrap(), stars_b);
}

#[test]
fn failed_lookup_skips_the_item_only() {
    let mut store = ready_store();
    let lost = descriptor(1, "org/gone", &[]);
    let kept = descriptor(2, "org/here", &[]);
    assert_eq!(ingest_item(&mut store, &lost, None), Ok(IngestOutcome::NeedsLookup));
    assert_eq!(ingest_item(&mut store, &kept, None), Ok(IngestOutcome::NeedsLookup));
    let info = RepositoryInfo { stargazers_count: 51 };
    assert_eq!(ingest_item(&mut store, &kept, Some(info)), Ok(IngestOutcome::Stored));
    let (rows, total) = get_paginated_issues(&store, 1, 30, 0).unwrap();
    assert_eq!(total, 1);
    assert_eq!(rows[0].url, kept.url);
}
