//! What holds of the store and of its queries for every content and every
//! sequence of writes, stated over the store's value and proved.

use vstd::prelude::*;
use vstd::seq_lib::{to_multiset_build, to_multiset_insert};
use crate::db::{
    clip, is_newest_first, lemma_newest_first_len, newest_first, page_of, placed, with_min_stars,
    IssueRowView, StoreView,
};
use crate::github_api::{after_ingest, ingest_outcome, IngestOutcome};
use crate::models::{GitHubIssueView, IssueView, RepositoryInfo, StargazerCountView};
use crate::server::{clamped_page, page_count, MAX_PAGE, PER_PAGE};
use crate::text_order::{lemma_bytes_before_asymmetric, lemma_not_before_transitive, text_before};

verus! {

/// Inserting an issue keeps the store well formed, whatever it held.
pub proof fn lemma_insert_keeps_wf(v: StoreView, issue: IssueView, now: Seq<char>)
    requires
        v.wf(),
    ensures
        v.after_insert(issue, now).wf(),
{
    let after = v.after_insert(issue, now);
    if v.accepts(issue.url) {
        assert forall|i: int, j: int| 0 <= i < j < after.issues.len() implies (
        #[trigger] after.issues[i]).issue.url != (#[trigger] after.issues[j]).issue.url by {
            if j < v.issues.len() {
                assert(v.issues[i].issue.url != v.issues[j].issue.url);
            } else {
                assert(v.issues[i].issue.url != issue.url);
            }
        }
        assert forall|i: int| 0 <= i < after.issues.len() implies (#[trigger] after.issues[i]).issue.id
            == i + 1 by {
            if i < v.issues.len() {
                assert(v.issues[i].issue.id == i + 1);
            }
        }
    }
}

/// Idempotence of the issue insert. Once an insert has succeeded, exactly one
/// row holds its URL, and inserting the same issue again, at any later time,
/// succeeds and leaves the store as it was.
pub proof fn lemma_insert_twice_is_once(v: StoreView, issue: IssueView, first: Seq<char>, second: Seq<char>)
    requires
        v.wf(),
        v.insert_outcome(issue.url).is_ok(),
    ensures
        ({
            let once = v.after_insert(issue, first);
            &&& once.has_url(issue.url)
            &&& forall|i: int, j: int|
                0 <= i < once.issues.len() && 0 <= j < once.issues.len() && (
                #[trigger] once.issues[i]).issue.url == issue.url && (
                #[trigger] once.issues[j]).issue.url == issue.url ==> i == j
            &&& once.insert_outcome(issue.url).is_ok()
            &&& once.after_insert(issue, second) == once
        }),
{
    let once = v.after_insert(issue, first);
    lemma_insert_keeps_wf(v, issue, first);
    if v.accepts(issue.url) {
        assert(once.issues[v.issues.len() as int].issue.url == issue.url);
    }
    assert forall|i: int, j: int|
        0 <= i < once.issues.len() && 0 <= j < once.issues.len() && (
        #[trigger] once.issues[i]).issue.url == issue.url && (#[trigger] once.issues[j]).issue.url
            == issue.url implies i == j by {
        if i < j {
            assert(once.issues[i].issue.url != once.issues[j].issue.url);
        } else if j < i {
            assert(once.issues[j].issue.url != once.issues[i].issue.url);
        }
    }
}

/// An insert never removes, reorders or rewrites a stored row.
pub proof fn lemma_insert_is_append_only(v: StoreView, issue: IssueView, now: Seq<char>)
    ensures
        v.issues.is_prefix_of(v.after_insert(issue, now).issues),
        v.after_insert(issue, now).stars == v.stars,
        v.after_insert(issue, now).issues.len() <= v.issues.len() + 1,
{
}

/// Writing a star count keeps the store well formed.
pub proof fn lemma_upsert_keeps_wf(v: StoreView, repo_name: Seq<char>, star_count: i64, now: Seq<char>)
    requires
        v.wf(),
    ensures
        v.after_upsert(repo_name, star_count, now).wf(),
{
}

/// Last write wins. After two star-count writes for one repository the
/// table holds one row for it, with the later count and the later
/// timestamp; the rows of other repositories and the issues are untouched.
pub proof fn lemma_upsert_twice_keeps_latest(
    v: StoreView,
    repo_name: Seq<char>,
    first_count: i64,
    first_time: Seq<char>,
    second_count: i64,
    second_time: Seq<char>,
)
    requires
        v.ready,
    ensures
        ({
            let twice = v.after_upsert(repo_name, first_count, first_time).after_upsert(
                repo_name,
                second_count,
                second_time,
            );
            &&& twice == v.after_upsert(repo_name, second_count, second_time)
            &&& twice.star_count_of(repo_name) == Some(
                StargazerCountView { repo_name, star_count: second_count, updated_at: second_time },
            )
            &&& twice.stars.dom() == v.stars.dom().insert(repo_name)
            &&& forall|other: Seq<char>|
                other != repo_name ==> #[trigger] twice.star_count_of(other) == v.star_count_of(other)
            &&& twice.issues == v.issues
        }),
{
    let once = v.after_upsert(repo_name, first_count, first_time);
    let twice = once.after_upsert(repo_name, second_count, second_time);
    let direct = v.after_upsert(repo_name, second_count, second_time);
    assert(twice.stars =~= direct.stars);
    assert(twice.stars.dom() =~= v.stars.dom().insert(repo_name));
}

/// Every resolved page lies from 1 to the last page allowed.
pub proof fn lemma_clamped_page_in_range(page: Option<i64>)
    ensures
        1 <= clamped_page(page) <= MAX_PAGE,
        page.is_some() && 1 <= page.unwrap() <= MAX_PAGE ==> clamped_page(page) == page.unwrap(),
{
}

/// Every issue that passes the filter meets the threshold and is a stored one.
pub proof fn lemma_matching_meets_threshold(s: Seq<IssueRowView>, min_stars: i64)
    ensures
        forall|k: int|
            0 <= k < with_min_stars(s, min_stars).len() ==> {
                &&& (#[trigger] with_min_stars(s, min_stars)[k]).star_count >= min_stars
                &&& exists|i: int| 0 <= i < s.len() && (#[trigger] s[i]).issue == with_min_stars(s, min_stars)[k]
            },
    decreases s.len(),
{
    if s.len() > 0 {
        let front = s.drop_last();
        lemma_matching_meets_threshold(front, min_stars);
        let kept = with_min_stars(s, min_stars);
        let before = with_min_stars(front, min_stars);
        assert forall|k: int| 0 <= k < kept.len() implies {
            &&& (#[trigger] kept[k]).star_count >= min_stars
            &&& exists|i: int| 0 <= i < s.len() && (#[trigger] s[i]).issue == kept[k]
        } by {
            if k < before.len() {
                assert(kept[k] == before[k]);
                let i = choose|i: int| 0 <= i < front.len() && (#[trigger] front[i]).issue == before[k];
                assert(s[i].issue == kept[k]);
            } else {
                assert(s[s.len() - 1].issue == kept[k]);
            }
        }
    }
}

/// Every stored issue that meets the threshold passes the filter.
pub proof fn lemma_matching_is_complete(s: Seq<IssueRowView>, min_stars: i64, i: int)
    requires
        0 <= i < s.len(),
        s[i].issue.star_count >= min_stars,
    ensures
        with_min_stars(s, min_stars).contains(s[i].issue),
    decreases s.len(),
{
    let kept = with_min_stars(s, min_stars);
    if i == s.len() - 1 {
        assert(kept[kept.len() - 1] == s[i].issue);
    } else {
        let front = s.drop_last();
        lemma_matching_is_complete(front, min_stars, i);
        let before = with_min_stars(front, min_stars);
        let k = choose|k: int| 0 <= k < before.len() && before[k] == front[i].issue;
        assert(kept[k] == s[i].issue);
    }
}

/// Raising the star threshold never lets more issues through.
pub proof fn lemma_raising_min_stars(s: Seq<IssueRowView>, lower: i64, higher: i64)
    requires
        lower <= higher,
    ensures
        with_min_stars(s, higher).len() <= with_min_stars(s, lower).len(),
    decreases s.len(),
{
    if s.len() > 0 {
        lemma_raising_min_stars(s.drop_last(), lower, higher);
    }
}

/// A page is as long as the part of its slice that lies within the ranking,
/// and from the first page on it holds at most `per_page` issues.
pub proof fn lemma_page_len(s: Seq<IssueView>, page: int, per_page: int)
    ensures
        page_of(s, page, per_page).len() == if clip((page - 1) * per_page, s.len() as int) < clip(
            page * per_page,
            s.len() as int,
        ) {
            clip(page * per_page, s.len() as int) - clip((page - 1) * per_page, s.len() as int)
        } else {
            0
        },
        page >= 1 && per_page >= 0 ==> page_of(s, page, per_page).len() <= per_page,
{
    assert(page * per_page - (page - 1) * per_page == per_page) by (nonlinear_arith);
}

/// Raising the star threshold never lengthens the page a request gets, nor
/// the total it is told.
pub proof fn lemma_raising_min_stars_shrinks_result(
    v: StoreView,
    page: int,
    per_page: int,
    lower: i64,
    higher: i64,
)
    requires
        lower <= higher,
        page >= 1,
        per_page >= 0,
    ensures
        v.matching(higher).len() <= v.matching(lower).len(),
        page_of(v.ranked(higher), page, per_page).len() <= page_of(v.ranked(lower), page, per_page).len(),
{
    lemma_raising_min_stars(v.issues, lower, higher);
    lemma_newest_first_len(v.matching(lower));
    lemma_newest_first_len(v.matching(higher));
    lemma_page_len(v.ranked(lower), page, per_page);
    lemma_page_len(v.ranked(higher), page, per_page);
    assert((page - 1) * per_page <= page * per_page) by (nonlinear_arith)
        requires
            per_page >= 0,
    ;
}

/// With nothing to show, every page is empty and the page count is zero.
pub proof fn lemma_no_matches_no_pages(v: StoreView, page: int, min_stars: i64)
    requires
        v.matching(min_stars).len() == 0,
    ensures
        page_of(v.ranked(min_stars), page, PER_PAGE as int).len() == 0,
        page_count(v.matching(min_stars).len() as int, PER_PAGE as int) == 0,
{
    lemma_newest_first_len(v.matching(min_stars));
}

/// `text_before` is a strict order: of "not before" it gives transitivity.
proof fn lemma_text_not_before_transitive(a: Seq<char>, b: Seq<char>, c: Seq<char>)
    requires
        !text_before(a, b),
        !text_before(b, c),
    ensures
        !text_before(a, c),
{
    lemma_not_before_transitive(
        vstd::utf8::encode_utf8(a),
        vstd::utf8::encode_utf8(b),
        vstd::utf8::encode_utf8(c),
    );
}

/// The index at which `placed` puts `x` into `s`.
pub open spec fn place_index(s: Seq<IssueView>, x: IssueView) -> int
    decreases s.len(),
{
    if s.len() > 0 && text_before(s.last().created_at, x.created_at) {
        place_index(s.drop_last(), x)
    } else {
        s.len() as int
    }
}

/// `placed` inserts `x` at `place_index`: behind it stand only issues
/// created before `x`, and the issue just in front of it was not.
pub proof fn lemma_place_index(s: Seq<IssueView>, x: IssueView)
    ensures
        0 <= place_index(s, x) <= s.len(),
        placed(s, x) == s.insert(place_index(s, x), x),
        forall|k: int|
            place_index(s, x) <= k < s.len() ==> text_before((#[trigger] s[k]).created_at, x.created_at),
        place_index(s, x) > 0 ==> !text_before(s[place_index(s, x) - 1].created_at, x.created_at),
    decreases s.len(),
{
    if s.len() > 0 && text_before(s.last().created_at, x.created_at) {
        let front = s.drop_last();
        lemma_place_index(front, x);
        let at = place_index(front, x);
        assert(front.insert(at, x).push(s.last()) =~= s.insert(at, x));
        assert forall|k: int| at <= k < s.len() implies text_before(
            (#[trigger] s[k]).created_at,
            x.created_at,
        ) by {
            if k < front.len() {
                assert(front[k] == s[k]);
            }
        }
    } else {
        assert(s.push(x) =~= s.insert(s.len() as int, x));
    }
}

/// Placing an issue into a newest-first sequence keeps it newest first.
pub proof fn lemma_placed_keeps_order(s: Seq<IssueView>, x: IssueView)
    requires
        is_newest_first(s),
    ensures
        is_newest_first(placed(s, x)),
{
    lemma_place_index(s, x);
    let at = place_index(s, x);
    let r = s.insert(at, x);
    assert forall|i: int, j: int| 0 <= i < j < r.len() implies !text_before(
        #[trigger] r[i].created_at,
        #[trigger] r[j].created_at,
    ) by {
        if i == at {
            assert(r[j] == s[j - 1]);
            assert(text_before(s[j - 1].created_at, x.created_at));
            lemma_bytes_before_asymmetric(
                vstd::utf8::encode_utf8(s[j - 1].created_at),
                vstd::utf8::encode_utf8(x.created_at),
            );
        } else if j == at {
            assert(r[i] == s[i]);
            if i == at - 1 {
            } else {
                assert(!text_before(s[i].created_at, s[at - 1].created_at));
                lemma_text_not_before_transitive(s[i].created_at, s[at - 1].created_at, x.created_at);
            }
        } else {
            let a = if i < at { i } else { i - 1 };
            let b = if j < at { j } else { j - 1 };
            assert(r[i] == s[a] && r[j] == s[b]);
            assert(!text_before(s[a].created_at, s[b].created_at));
        }
    }
}

/// Ordering: a ranking is sorted by creation timestamp, newest first, and
/// holds exactly the issues it was made from, each as often as before.
pub proof fn lemma_newest_first_sorts(s: Seq<IssueView>)
    ensures
        is_newest_first(newest_first(s)),
        newest_first(s).to_multiset() == s.to_multiset(),
        newest_first(s).len() == s.len(),
    decreases s.len(),
{
    lemma_newest_first_len(s);
    if s.len() > 0 {
        let front = s.drop_last();
        lemma_newest_first_sorts(front);
        lemma_placed_keeps_order(newest_first(front), s.last());
        lemma_place_index(newest_first(front), s.last());
        to_multiset_insert(newest_first(front), place_index(newest_first(front), s.last()), s.last());
        to_multiset_build(front, s.last());
        assert(front.push(s.last()) =~= s);
    } else {
        assert(newest_first(s) =~= s);
    }
}

/// Ranking is stable: an issue is placed behind every issue that was not
/// created before it, and those keep their places.
pub proof fn lemma_placed_behind_equals(s: Seq<IssueView>, x: IssueView)
    ensures
        placed(s, x)[place_index(s, x)] == x,
        forall|k: int|
            0 <= k < s.len() && !text_before((#[trigger] s[k]).created_at, x.created_at) ==> k
                < place_index(s, x) && placed(s, x)[k] == s[k],
{
    lemma_place_index(s, x);
}

/// Every page a query returns is sorted newest first, and each of its
/// issues meets the star threshold.
pub proof fn lemma_page_is_sorted_and_filtered(v: StoreView, page: int, per_page: int, min_stars: i64)
    ensures
        is_newest_first(page_of(v.ranked(min_stars), page, per_page)),
        forall|k: int|
            0 <= k < page_of(v.ranked(min_stars), page, per_page).len() ==> {
                &&& (#[trigger] page_of(v.ranked(min_stars), page, per_page)[k]).star_count >= min_stars
                &&& v.matching(min_stars).contains(page_of(v.ranked(min_stars), page, per_page)[k])
            },
{
    let kept = v.matching(min_stars);
    let ranked = v.ranked(min_stars);
    let shown = page_of(ranked, page, per_page);
    lemma_newest_first_sorts(kept);
    lemma_matching_meets_threshold(v.issues, min_stars);
    let lo = clip((page - 1) * per_page, ranked.len() as int);
    assert forall|i: int, j: int| 0 <= i < j < shown.len() implies !text_before(
        #[trigger] shown[i].created_at,
        #[trigger] shown[j].created_at,
    ) by {
        assert(shown[i] == ranked[lo + i] && shown[j] == ranked[lo + j]);
    }
    assert forall|k: int| 0 <= k < shown.len() implies {
        &&& (#[trigger] shown[k]).star_count >= min_stars
        &&& kept.contains(shown[k])
    } by {
        assert(shown[k] == ranked[lo + k]);
        broadcast use vstd::seq_lib::group_to_multiset_ensures;
        assert(ranked.contains(ranked[lo + k]));
        assert(ranked.to_multiset().count(shown[k]) > 0);
        assert(kept.to_multiset().count(shown[k]) > 0);
        assert(kept.contains(shown[k]));
        let m = choose|m: int| 0 <= m < kept.len() && kept[m] == shown[k];
        assert(kept[m].star_count >= min_stars);
    }
}

/// A descriptor that was stored once is passed over ever after: offering it
/// again, with or without a fresh lookup and at any time, reports it stored
/// and changes neither table. So a second cycle over an unchanged upstream
/// response leaves the store as the first one left it.
pub proof fn lemma_ingest_twice_is_once(
    v: StoreView,
    item: GitHubIssueView,
    first_lookup: Option<RepositoryInfo>,
    second_lookup: Option<RepositoryInfo>,
    times: (Seq<char>, Seq<char>, Seq<char>, Seq<char>),
)
    requires
        v.wf(),
        ingest_outcome(v, item, first_lookup) == Ok::<IngestOutcome, crate::db::StoreError>(
            IngestOutcome::Stored,
        ),
    ensures
        ({
            let once = after_ingest(v, item, first_lookup, times.0, times.1);
            &&& once.wf()
            &&& ingest_outcome(once, item, second_lookup) == Ok::<IngestOutcome, crate::db::StoreError>(
                IngestOutcome::Stored,
            )
            &&& after_ingest(once, item, second_lookup, times.2, times.3) == once
        }),
{
    let once = after_ingest(v, item, first_lookup, times.0, times.1);
    let repo = item.repository_url;
    match v.star_count_of(repo) {
        Some(cached) => {
            let issue = crate::github_api::normalized(item, cached.star_count);
            lemma_insert_keeps_wf(v, issue, times.1);
            lemma_insert_twice_is_once(v, issue, times.1, times.3);
            assert(once.star_count_of(repo) == Some(cached));
        },
        None => {
            let info = first_lookup.unwrap();
            let counted = v.after_upsert(repo, info.stargazers_count, times.0);
            let issue = crate::github_api::normalized(item, info.stargazers_count);
            lemma_upsert_keeps_wf(v, repo, info.stargazers_count, times.0);
            lemma_insert_keeps_wf(counted, issue, times.1);
            assert(counted.has_url(item.url) == v.has_url(item.url));
            lemma_insert_twice_is_once(counted, issue, times.1, times.3);
            assert(once.star_count_of(repo).is_some());
            assert(once.star_count_of(repo).unwrap().star_count == info.stargazers_count);
        },
    }
}

} // verus!
