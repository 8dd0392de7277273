//! The records of the cache and of the upstream service, each with the
//! mathematical value that contracts speak of.

use vstd::prelude::*;

verus! {

/// One captured upstream issue, immutable once stored.
#[derive(Debug, PartialEq, Eq)]
pub struct Issue {
    pub id: i64,
    pub repo_name: String,
    pub url: String,
    pub creator: String,
    pub created_at: String,
    pub title: String,
    pub labels: String,
    pub star_count: i64,
}

/// The value of an [`Issue`].
pub struct IssueView {
    pub id: i64,
    pub repo_name: Seq<char>,
    pub url: Seq<char>,
    pub creator: Seq<char>,
    pub created_at: Seq<char>,
    pub title: Seq<char>,
    pub labels: Seq<char>,
    pub star_count: i64,
}

impl View for Issue {
    type V = IssueView;

    open spec fn view(&self) -> IssueView {
        IssueView {
            id: self.id,
            repo_name: self.repo_name@,
            url: self.url@,
            creator: self.creator@,
            created_at: self.created_at@,
            title: self.title@,
            labels: self.labels@,
            star_count: self.star_count,
        }
    }
}

impl Clone for Issue {
    fn clone(&self) -> (r: Self)
        ensures
            r@ == self@,
    {
        Issue {
            id: self.id,
            repo_name: self.repo_name.clone(),
            url: self.url.clone(),
            creator: self.creator.clone(),
            created_at: self.created_at.clone(),
            title: self.title.clone(),
            labels: self.labels.clone(),
            star_count: self.star_count,
        }
    }
}

/// The values of a vector of issues, in order.
pub open spec fn issue_views(v: Seq<Issue>) -> Seq<IssueView> {
    Seq::new(v.len(), |k: int| v[k]@)
}

/// The account that created an upstream issue.
#[derive(Debug, PartialEq, Eq)]
pub struct GitHubUser {
    pub login: String,
}

impl Clone for GitHubUser {
    fn clone(&self) -> (r: Self)
        ensures
            r.login@ == self.login@,
    {
        GitHubUser { login: self.login.clone() }
    }
}

/// One label of an upstream issue.
#[derive(Debug, PartialEq, Eq)]
pub struct GitHubLabel {
    pub name: String,
}

impl Clone for GitHubLabel {
    fn clone(&self) -> (r: Self)
        ensures
            r.name@ == self.name@,
    {
        GitHubLabel { name: self.name.clone() }
    }
}

/// The names of a list of labels, in order.
pub open spec fn label_names(labels: Seq<GitHubLabel>) -> Seq<Seq<char>> {
    Seq::new(labels.len(), |k: int| labels[k].name@)
}

/// One raw issue descriptor as the upstream search returns it.
#[derive(Debug, PartialEq, Eq)]
pub struct GitHubIssue {
    pub url: String,
    pub title: String,
    pub user: GitHubUser,
    pub created_at: String,
    pub labels: Vec<GitHubLabel>,
    pub repository_url: String,
}

/// The value of a [`GitHubIssue`].
pub struct GitHubIssueView {
    pub url: Seq<char>,
    pub title: Seq<char>,
    pub login: Seq<char>,
    pub created_at: Seq<char>,
    pub labels: Seq<Seq<char>>,
    pub repository_url: Seq<char>,
}

impl View for GitHubIssue {
    type V = GitHubIssueView;

    open spec fn view(&self) -> GitHubIssueView {
        GitHubIssueView {
            url: self.url@,
            title: self.title@,
            login: self.user.login@,
            created_at: self.created_at@,
            labels: label_names(self.labels@),
            repository_url: self.repository_url@,
        }
    }
}

/// The body of an upstream search response.
#[derive(Debug, PartialEq, Eq)]
pub struct GitHubSearchResponse {
    pub items: Vec<GitHubIssue>,
}

/// The body of an upstream repository lookup.
#[derive(Debug, Clone, Copy, PartialEq, Eq)]
pub struct RepositoryInfo {
    pub stargazers_count: i64,
}

/// The cached popularity of one repository.
#[derive(Debug, PartialEq, Eq)]
pub struct StargazerCount {
    pub repo_name: String,
    pub star_count: i64,
    pub updated_at: String,
}

/// The value of a [`StargazerCount`].
pub struct StargazerCountView {
    pub repo_name: Seq<char>,
    pub star_count: i64,
    pub updated_at: Seq<char>,
}

impl View for StargazerCount {
    type V = StargazerCountView;

    open spec fn view(&self) -> StargazerCountView {
        StargazerCountView {
            repo_name: self.repo_name@,
            star_count: self.star_count,
            updated_at: self.updated_at@,
        }
    }
}

impl Clone for StargazerCount {
    fn clone(&self) -> (r: Self)
        ensures
            r@ == self@,
    {
        StargazerCount {
            repo_name: self.repo_name.clone(),
            star_count: self.star_count,
            updated_at: self.updated_at.clone(),
        }
    }
}

/// One page of issues with the figures a reader needs to ask for the next.
#[derive(Debug, PartialEq, Eq)]
pub struct PaginatedResponse {
    pub issues: Vec<Issue>,
    pub total_count: i64,
    pub page: i64,
    pub per_page: i64,
    pub total_pages: i64,
}

} // verus!
