//! The fetcher's decisions: how one upstream descriptor becomes a stored
//! issue, and when the upstream has to be asked for a star count first.

use vstd::prelude::*;
use vstd::string::StringExecFns;
use crate::db::{
    get_stargazer_count, insert_issue, insert_or_update_stargazer_count, Store, StoreError, StoreView,
};
use crate::models::{GitHubIssue, GitHubIssueView, GitHubLabel, Issue, IssueView, label_names, RepositoryInfo};

verus! {

/// What became of one descriptor.
#[derive(Debug, Clone, Copy, PartialEq, Eq, Structural)]
pub enum IngestOutcome {
    /// The issue was handed to the store with a resolved star count.
    Stored,
    /// No star count is cached for the repository and none was supplied:
    /// the upstream has to be asked, and the descriptor offered again.
    NeedsLookup,
}

/// The label names joined into one text, a comma between neighbours.
pub open spec fn joined(names: Seq<Seq<char>>) -> Seq<char>
    decreases names.len(),
{
    if names.len() == 0 {
        Seq::empty()
    } else if names.len() == 1 {
        names[0]
    } else {
        joined(names.drop_last()) + seq![','] + names.last()
    }
}

/// The issue that a descriptor stands for once its repository's star count
/// is known. The id is left at zero: the store numbers the row.
pub open spec fn normalized(item: GitHubIssueView, star_count: i64) -> IssueView {
    IssueView {
        id: 0,
        repo_name: item.repository_url,
        url: item.url,
        creator: item.login,
        created_at: item.created_at,
        title: item.title,
        labels: joined(item.labels),
        star_count,
    }
}

/// The store after one descriptor was offered with what the upstream said of
/// its repository, if it was asked. A cached star count is used as it is; a
/// supplied one is written back at `counted_at` before the issue is
/// inserted at `captured_at`; with neither, nothing changes.
pub open spec fn after_ingest(
    v: StoreView,
    item: GitHubIssueView,
    looked_up: Option<RepositoryInfo>,
    counted_at: Seq<char>,
    captured_at: Seq<char>,
) -> StoreView {
    match v.star_count_of(item.repository_url) {
        Some(cached) => v.after_insert(normalized(item, cached.star_count), captured_at),
        None => match looked_up {
            Some(info) => v.after_upsert(item.repository_url, info.stargazers_count, counted_at).after_insert(
                normalized(item, info.stargazers_count),
                captured_at,
            ),
            None => v,
        },
    }
}

/// What offering a descriptor returns.
pub open spec fn ingest_outcome(v: StoreView, item: GitHubIssueView, looked_up: Option<RepositoryInfo>) -> Result<
    IngestOutcome,
    StoreError,
> {
    if !v.ready {
        Err(StoreError::NotInitialized)
    } else if v.star_count_of(item.repository_url).is_none() && looked_up.is_none() {
        Ok(IngestOutcome::NeedsLookup)
    } else if !v.has_url(item.url) && v.issues.len() >= i64::MAX {
        Err(StoreError::Full)
    } else {
        Ok(IngestOutcome::Stored)
    }
}

/// Joins the names of the labels into one text, a comma between neighbours.
pub fn flatten_labels(labels: &Vec<GitHubLabel>) -> (r: String)
    ensures
        r@ == joined(label_names(labels@)),
{
    let mut out = String::new();
    let mut i: usize = 0;
    while i < labels.len()
        invariant
            i <= labels@.len(),
            out@ == joined(label_names(labels@).take(i as int)),
        decreases labels@.len() - i,
    {
        proof {
            reveal_strlit(",");
            let names = label_names(labels@);
            assert(names.take(i + 1).drop_last() =~= names.take(i as int));
            assert(names.take(i + 1).last() == labels@[i as int].name@);
        }
        if i > 0 {
            out.append(",");
            assert(out@ =~= joined(label_names(labels@).take(i as int)) + seq![',']);
        } else {
            assert(out@ =~= Seq::<char>::empty());
            assert(label_names(labels@).take(1)[0] == labels@[0].name@);
        }
        out.append(labels[i].name.as_str());
        i += 1;
    }
    proof {
        assert(label_names(labels@).take(i as int) =~= label_names(labels@));
    }
    out
}

/// Turns a descriptor and its repository's star count into an issue.
pub fn normalize(item: &GitHubIssue, star_count: i64) -> (r: Issue)
    ensures
        r@ == normalized(item@, star_count),
{
    Issue {
        id: 0,
        repo_name: item.repository_url.clone(),
        url: item.url.clone(),
        creator: item.user.login.clone(),
        created_at: item.created_at.clone(),
        title: item.title.clone(),
        labels: flatten_labels(&item.labels),
        star_count,
    }
}

/// Offers one descriptor to the store. A cached star count settles the
/// matter without the upstream; otherwise the caller's lookup result is
/// written back first. An issue whose URL is stored already is passed over
/// and counts as stored.
pub fn ingest_item(store: &mut Store, item: &GitHubIssue, looked_up: Option<RepositoryInfo>) -> (r: Result<
    IngestOutcome,
    StoreError,
>)
    requires
        old(store).wf(),
    ensures
        final(store).wf(),
        r == ingest_outcome(old(store)@, item@, looked_up),
        !old(store)@.ready ==> final(store)@ == old(store)@,
        old(store)@.ready ==> exists|counted_at: Seq<char>, captured_at: Seq<char>|
            final(store)@ == #[trigger] after_ingest(old(store)@, item@, looked_up, counted_at, captured_at),
{
    let ghost before = store@;
    let cached = match get_stargazer_count(store, item.repository_url.as_str()) {
        Ok(c) => c,
        Err(e) => {
            return Err(e);
        },
    };
    let star_count = match cached {
        Some(c) => c.star_count,
        None => match looked_up {
            Some(info) => {
                match insert_or_update_stargazer_count(
                    store,
                    item.repository_url.as_str(),
                    info.stargazers_count,
                ) {
                    Ok(()) => info.stargazers_count,
                    Err(e) => {
                        return Err(e);
                    },
                }
            },
            None => {
                proof {
                    assert(store@ == after_ingest(before, item@, looked_up, Seq::empty(), Seq::empty()));
                }
                return Ok(IngestOutcome::NeedsLookup);
            },
        },
    };
    let ghost counted = store@;
    let issue = normalize(item, star_count);
    let r = insert_issue(store, &issue);
    proof {
        let captured_at = choose|t: Seq<char>| store@ == #[trigger] counted.after_insert(issue@, t);
        if before.star_count_of(item@.repository_url).is_some() {
            assert(store@ == after_ingest(before, item@, looked_up, Seq::empty(), captured_at));
        } else {
            let counted_at = choose|t: Seq<char>|
                counted == #[trigger] before.after_upsert(item@.repository_url, star_count, t);
            assert(store@ == after_ingest(before, item@, looked_up, counted_at, captured_at));
        }
    }
    match r {
        Ok(()) => Ok(IngestOutcome::Stored),
        Err(e) => Err(e),
    }
}

} // verus!
