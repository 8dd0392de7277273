//! The store: an append-only table of issues, unique by URL, and a table of
//! star counts, one row per repository.

use vstd::prelude::*;
use crate::clock::now_rfc3339;
use crate::models::{issue_views, Issue, IssueView, StargazerCount, StargazerCountView};
use crate::text_order::{comes_before, text_before};

verus! {

/// Why the store refused an operation.
#[derive(Debug, Clone, Copy, PartialEq, Eq, Structural)]
pub enum StoreError {
    /// The tables have not been created yet.
    NotInitialized,
    /// The issue table cannot number another row.
    Full,
}

/// One row of the issue table: the issue and when it was captured.
#[derive(Debug)]
pub struct IssueRow {
    pub issue: Issue,
    pub inserted_at: String,
}

/// The value of an [`IssueRow`].
pub struct IssueRowView {
    pub issue: IssueView,
    pub inserted_at: Seq<char>,
}

impl View for IssueRow {
    type V = IssueRowView;

    open spec fn view(&self) -> IssueRowView {
        IssueRowView { issue: self.issue@, inserted_at: self.inserted_at@ }
    }
}

/// The value of a [`Store`]: the issue table in insertion order and the
/// star-count table keyed by repository name.
pub struct StoreView {
    pub ready: bool,
    pub issues: Seq<IssueRowView>,
    pub stars: Map<Seq<char>, StargazerCountView>,
}

/// The issues of `s` whose star count is at least `min_stars`, in the order of `s`.
pub open spec fn with_min_stars(s: Seq<IssueRowView>, min_stars: i64) -> Seq<IssueView>
    decreases s.len(),
{
    if s.len() == 0 {
        Seq::empty()
    } else if s.last().issue.star_count >= min_stars {
        with_min_stars(s.drop_last(), min_stars).push(s.last().issue)
    } else {
        with_min_stars(s.drop_last(), min_stars)
    }
}

/// `x` placed into `s` behind every issue that was not created before it.
pub open spec fn placed(s: Seq<IssueView>, x: IssueView) -> Seq<IssueView>
    decreases s.len(),
{
    if s.len() > 0 && text_before(s.last().created_at, x.created_at) {
        placed(s.drop_last(), x).push(s.last())
    } else {
        s.push(x)
    }
}

/// The issues of `s` newest first by creation timestamp; issues with equal
/// timestamps keep the order they have in `s`.
pub open spec fn newest_first(s: Seq<IssueView>) -> Seq<IssueView>
    decreases s.len(),
{
    if s.len() == 0 {
        Seq::empty()
    } else {
        placed(newest_first(s.drop_last()), s.last())
    }
}

/// No issue of `s` was created before one that follows it.
pub open spec fn is_newest_first(s: Seq<IssueView>) -> bool {
    forall|i: int, j: int|
        0 <= i < j < s.len() ==> !text_before(#[trigger] s[i].created_at, #[trigger] s[j].created_at)
}

/// `x` brought into the range from 0 to `len`.
pub open spec fn clip(x: int, len: int) -> int {
    if x < 0 {
        0
    } else if x > len {
        len
    } else {
        x
    }
}

/// The slice of `s` from `(page - 1) * per_page` up to `page * per_page`,
/// both ends brought into the range of `s`.
pub open spec fn page_of(s: Seq<IssueView>, page: int, per_page: int) -> Seq<IssueView> {
    let lo = clip((page - 1) * per_page, s.len() as int);
    let hi = clip(page * per_page, s.len() as int);
    if lo < hi {
        s.subrange(lo, hi)
    } else {
        Seq::empty()
    }
}

impl StoreView {
    /// Some row of the issue table has this URL.
    pub open spec fn has_url(self, url: Seq<char>) -> bool {
        exists|i: int| 0 <= i < self.issues.len() && (#[trigger] self.issues[i]).issue.url == url
    }

    /// URLs are unique, rows are numbered from 1 in insertion order, and
    /// each star count is filed under its own repository name.
    pub open spec fn wf(self) -> bool {
        &&& self.issues.len() <= i64::MAX
        &&& forall|i: int, j: int|
            0 <= i < j < self.issues.len() ==> (#[trigger] self.issues[i]).issue.url != (
            #[trigger] self.issues[j]).issue.url
        &&& forall|i: int| 0 <= i < self.issues.len() ==> (#[trigger] self.issues[i]).issue.id == i + 1
        &&& forall|r: Seq<char>| #[trigger] self.stars.contains_key(r) ==> self.stars[r].repo_name == r
    }

    /// The cached star count of `repo_name`, if there is one.
    pub open spec fn star_count_of(self, repo_name: Seq<char>) -> Option<StargazerCountView> {
        if self.stars.contains_key(repo_name) {
            Some(self.stars[repo_name])
        } else {
            None
        }
    }

    /// What a write returns: an error before the tables exist, success otherwise.
    pub open spec fn upsert_outcome(self) -> Result<(), StoreError> {
        if self.ready {
            Ok(())
        } else {
            Err(StoreError::NotInitialized)
        }
    }

    /// The store after a star-count write at time `now`: the row of
    /// `repo_name` is created or overwritten, nothing else changes.
    pub open spec fn after_upsert(self, repo_name: Seq<char>, star_count: i64, now: Seq<char>) -> StoreView {
        if self.ready {
            StoreView {
                stars: self.stars.insert(
                    repo_name,
                    StargazerCountView { repo_name, star_count, updated_at: now },
                ),
                ..self
            }
        } else {
            self
        }
    }

    /// An insert of an issue with this URL would add a row.
    pub open spec fn accepts(self, url: Seq<char>) -> bool {
        self.ready && !self.has_url(url) && self.issues.len() < i64::MAX
    }

    /// What an issue insert returns. A URL that is already stored is no error.
    pub open spec fn insert_outcome(self, url: Seq<char>) -> Result<(), StoreError> {
        if !self.ready {
            Err(StoreError::NotInitialized)
        } else if !self.has_url(url) && self.issues.len() >= i64::MAX {
            Err(StoreError::Full)
        } else {
            Ok(())
        }
    }

    /// The store after an issue insert at time `now`: a new URL is appended
    /// under the next id, a known URL changes nothing.
    pub open spec fn after_insert(self, issue: IssueView, now: Seq<char>) -> StoreView {
        if self.accepts(issue.url) {
            StoreView {
                issues: self.issues.push(
                    IssueRowView {
                        issue: IssueView { id: (self.issues.len() + 1) as i64, ..issue },
                        inserted_at: now,
                    },
                ),
                ..self
            }
        } else {
            self
        }
    }

    /// The stored issues with at least `min_stars` stars, in insertion order.
    pub open spec fn matching(self, min_stars: i64) -> Seq<IssueView> {
        with_min_stars(self.issues, min_stars)
    }

    /// The stored issues with at least `min_stars` stars, newest first.
    pub open spec fn ranked(self, min_stars: i64) -> Seq<IssueView> {
        newest_first(self.matching(min_stars))
    }
}

/// The star-count rows as a table keyed by repository name.
pub closed spec fn star_table(rows: Seq<StargazerCount>) -> Map<Seq<char>, StargazerCountView> {
    Map::new(
        |r: Seq<char>| exists|i: int| 0 <= i < rows.len() && (#[trigger] rows[i]).repo_name@ == r,
        |r: Seq<char>| rows[choose|i: int| 0 <= i < rows.len() && (#[trigger] rows[i]).repo_name@ == r]@,
    )
}

/// No two rows name the same repository.
pub closed spec fn distinct_repos(rows: Seq<StargazerCount>) -> bool {
    forall|i: int, j: int|
        0 <= i < j < rows.len() ==> (#[trigger] rows[i]).repo_name@ != (#[trigger] rows[j]).repo_name@
}

/// The cache of issues and star counts.
pub struct Store {
    ready: bool,
    issues: Vec<IssueRow>,
    stars: Vec<StargazerCount>,
}

impl View for Store {
    type V = StoreView;

    closed spec fn view(&self) -> StoreView {
        StoreView {
            ready: self.ready,
            issues: Seq::new(self.issues@.len(), |k: int| self.issues@[k]@),
            stars: star_table(self.stars@),
        }
    }
}

impl Store {
    /// The store's invariant: its value is well formed.
    pub closed spec fn wf(&self) -> bool {
        &&& self@.wf()
        &&& distinct_repos(self.stars@)
    }

    /// A well-formed store has a well-formed value.
    pub proof fn lemma_wf_view(&self)
        requires
            self.wf(),
        ensures
            self@.wf(),
    {
    }

    /// A store without tables: every operation but `init_db` is refused.
    pub fn new() -> (s: Store)
        ensures
            s.wf(),
            !s@.ready,
            s@.issues == Seq::<IssueRowView>::empty(),
            s@.stars == Map::<Seq<char>, StargazerCountView>::empty(),
    {
        let s = Store { ready: false, issues: Vec::new(), stars: Vec::new() };
        proof {
            assert(s@.issues =~= Seq::<IssueRowView>::empty());
            assert(s@.stars =~= Map::<Seq<char>, StargazerCountView>::empty());
        }
        s
    }
}

/// Creates both tables if they are absent. Rows already stored are kept, so
/// a second call changes nothing.
pub fn init_db(store: &mut Store) -> (r: Result<(), StoreError>)
    requires
        old(store).wf(),
    ensures
        final(store).wf(),
        r == Ok::<(), StoreError>(()),
        final(store)@ == (StoreView { ready: true, ..old(store)@ }),
{
    store.ready = true;
    Ok(())
}

/// A row is found in the table under its own repository name.
proof fn lemma_star_table_row(rows: Seq<StargazerCount>, i: int)
    requires
        distinct_repos(rows),
        0 <= i < rows.len(),
    ensures
        star_table(rows).contains_key(rows[i].repo_name@),
        star_table(rows)[rows[i].repo_name@] == rows[i]@,
{
    let r = rows[i].repo_name@;
    let j = choose|j: int| 0 <= j < rows.len() && (#[trigger] rows[j]).repo_name@ == r;
    assert(j == i) by {
        if j < i {
            assert(rows[j].repo_name@ != rows[i].repo_name@);
        } else if i < j {
            assert(rows[i].repo_name@ != rows[j].repo_name@);
        }
    }
}

/// Appending a row for a repository that has none adds that entry to the table.
proof fn lemma_star_table_push(rows: Seq<StargazerCount>, row: StargazerCount)
    requires
        distinct_repos(rows),
        forall|i: int| 0 <= i < rows.len() ==> (#[trigger] rows[i]).repo_name@ != row.repo_name@,
    ensures
        distinct_repos(rows.push(row)),
        star_table(rows.push(row)) == star_table(rows).insert(row.repo_name@, row@),
{
    let after = rows.push(row);
    assert(distinct_repos(after)) by {
        assert forall|i: int, j: int| 0 <= i < j < after.len() implies (#[trigger] after[i]).repo_name@
            != (#[trigger] after[j]).repo_name@ by {
            if j < rows.len() {
                assert(rows[i].repo_name@ != rows[j].repo_name@);
            } else {
                assert(rows[i].repo_name@ != row.repo_name@);
            }
        }
    }
    let want = star_table(rows).insert(row.repo_name@, row@);
    assert forall|r: Seq<char>| star_table(after).contains_key(r) <==> want.contains_key(r) by {
        if star_table(after).contains_key(r) {
            let i = choose|i: int| 0 <= i < after.len() && (#[trigger] after[i]).repo_name@ == r;
            if i < rows.len() {
                assert(rows[i].repo_name@ == r);
            }
        }
        if want.contains_key(r) && r != row.repo_name@ {
            let i = choose|i: int| 0 <= i < rows.len() && (#[trigger] rows[i]).repo_name@ == r;
            assert(after[i].repo_name@ == r);
        }
        if r == row.repo_name@ {
            assert(after[rows.len() as int].repo_name@ == r);
        }
    }
    assert forall|r: Seq<char>| star_table(after).contains_key(r) implies star_table(after)[r]
        == want[r] by {
        let i = choose|i: int| 0 <= i < after.len() && (#[trigger] after[i]).repo_name@ == r;
        lemma_star_table_row(after, i);
        if i < rows.len() {
            assert(rows[i].repo_name@ == r);
            lemma_star_table_row(rows, i);
        }
    }
    assert(star_table(after) =~= want);
}

/// Overwriting the row of a repository replaces that entry of the table.
proof fn lemma_star_table_update(rows: Seq<StargazerCount>, at: int, row: StargazerCount)
    requires
        distinct_repos(rows),
        0 <= at < rows.len(),
        rows[at].repo_name@ == row.repo_name@,
    ensures
        distinct_repos(rows.update(at, row)),
        star_table(rows.update(at, row)) == star_table(rows).insert(row.repo_name@, row@),
{
    let after = rows.update(at, row);
    assert(distinct_repos(after)) by {
        assert forall|i: int, j: int| 0 <= i < j < after.len() implies (#[trigger] after[i]).repo_name@
            != (#[trigger] after[j]).repo_name@ by {
            assert(rows[i].repo_name@ != rows[j].repo_name@);
        }
    }
    let want = star_table(rows).insert(row.repo_name@, row@);
    assert forall|r: Seq<char>| star_table(after).contains_key(r) <==> want.contains_key(r) by {
        if star_table(after).contains_key(r) {
            let i = choose|i: int| 0 <= i < after.len() && (#[trigger] after[i]).repo_name@ == r;
            assert(rows[i].repo_name@ == r);
        }
        if want.contains_key(r) && r != row.repo_name@ {
            let i = choose|i: int| 0 <= i < rows.len() && (#[trigger] rows[i]).repo_name@ == r;
            assert(after[i].repo_name@ == r);
        }
        if r == row.repo_name@ {
            assert(after[at].repo_name@ == r);
        }
    }
    assert forall|r: Seq<char>| star_table(after).contains_key(r) implies star_table(after)[r]
        == want[r] by {
        let i = choose|i: int| 0 <= i < after.len() && (#[trigger] after[i]).repo_name@ == r;
        lemma_star_table_row(after, i);
        if i != at {
            assert(rows[i].repo_name@ == r);
            lemma_star_table_row(rows, i);
        }
    }
    assert(star_table(after) =~= want);
}

impl Store {
    /// The index of the star-count row of `repo_name`, if there is one.
    fn star_row(&self, repo_name: &str) -> (r: Option<usize>)
        requires
            self.wf(),
        ensures
            match r {
                Some(i) => i < self.stars@.len() && self.stars@[i as int].repo_name@ == repo_name@,
                None => forall|i: int|
                    0 <= i < self.stars@.len() ==> (#[trigger] self.stars@[i]).repo_name@ != repo_name@,
            },
    {
        let wanted: String = repo_name.to_owned();
        let mut i: usize = 0;
        while i < self.stars.len()
            invariant
                wanted@ == repo_name@,
                i <= self.stars@.len(),
                forall|k: int| 0 <= k < i ==> (#[trigger] self.stars@[k]).repo_name@ != repo_name@,
            decreases self.stars@.len() - i,
        {
            if self.stars[i].repo_name == wanted {
                return Some(i);
            }
            i += 1;
        }
        None
    }

    /// Whether some stored issue has this URL.
    fn holds_url(&self, url: &str) -> (r: bool)
        ensures
            r == self@.has_url(url@),
    {
        let wanted: String = url.to_owned();
        let mut i: usize = 0;
        while i < self.issues.len()
            invariant
                wanted@ == url@,
                i <= self.issues@.len(),
                forall|k: int| 0 <= k < i ==> (#[trigger] self@.issues[k]).issue.url != url@,
            decreases self.issues@.len() - i,
        {
            if self.issues[i].issue.url == wanted {
                assert(self@.issues[i as int].issue.url == url@);
                return true;
            }
            i += 1;
        }
        false
    }
}

/// Looks up the cached star count of a repository. A repository without a
/// row gives `None`, not an error.
pub fn get_stargazer_count(store: &Store, repo_name: &str) -> (r: Result<
    Option<StargazerCount>,
    StoreError,
>)
    requires
        store.wf(),
    ensures
        match r {
            Ok(Some(c)) => store@.ready && store@.star_count_of(repo_name@) == Some(c@),
            Ok(None) => store@.ready && store@.star_count_of(repo_name@).is_none(),
            Err(e) => !store@.ready && e == StoreError::NotInitialized,
        },
{
    if !store.ready {
        return Err(StoreError::NotInitialized);
    }
    match store.star_row(repo_name) {
        Some(i) => {
            proof {
                lemma_star_table_row(store.stars@, i as int);
            }
            Ok(Some(store.stars[i].clone()))
        },
        None => Ok(None),
    }
}

/// Writes the star count of a repository as of `now`: the row is created if
/// the repository has none and overwritten, count and timestamp, if it has.
pub fn upsert_stargazer_count_at(store: &mut Store, repo_name: &str, star_count: i64, now: String) -> (r:
    Result<(), StoreError>)
    requires
        old(store).wf(),
    ensures
        final(store).wf(),
        r == old(store)@.upsert_outcome(),
        final(store)@ == old(store)@.after_upsert(repo_name@, star_count, now@),
{
    if !store.ready {
        return Err(StoreError::NotInitialized);
    }
    let row = StargazerCount { repo_name: repo_name.to_owned(), star_count, updated_at: now };
    match store.star_row(repo_name) {
        Some(i) => {
            proof {
                lemma_star_table_update(store.stars@, i as int, row);
            }
            store.stars.set(i, row);
        },
        None => {
            proof {
                lemma_star_table_push(store.stars@, row);
            }
            store.stars.push(row);
        },
    }
    proof {
        assert(final(store)@.issues =~= old(store)@.issues);
    }
    Ok(())
}

/// Writes the star count of a repository, stamped with the current time.
/// Whatever the clock reads, the row of `repo_name` then holds `star_count`
/// and every other row is as before.
pub fn insert_or_update_stargazer_count(store: &mut Store, repo_name: &str, star_count: i64) -> (r:
    Result<(), StoreError>)
    requires
        old(store).wf(),
    ensures
        final(store).wf(),
        r == old(store)@.upsert_outcome(),
        exists|now: Seq<char>|
            final(store)@ == #[trigger] old(store)@.after_upsert(repo_name@, star_count, now),
{
    let now = now_rfc3339();
    let ghost stamp = now@;
    let r = upsert_stargazer_count_at(store, repo_name, star_count, now);
    proof {
        assert(final(store)@ == old(store)@.after_upsert(repo_name@, star_count, stamp));
    }
    r
}

/// Stores an issue captured at `now` unless its URL is already stored. The
/// row gets the next id; every other field is the caller's. A known URL is
/// ignored and reported as success.
pub fn insert_issue_at(store: &mut Store, issue: &Issue, now: String) -> (r: Result<(), StoreError>)
    requires
        old(store).wf(),
    ensures
        final(store).wf(),
        r == old(store)@.insert_outcome(issue@.url),
        final(store)@ == old(store)@.after_insert(issue@, now@),
{
    if !store.ready {
        return Err(StoreError::NotInitialized);
    }
    if store.holds_url(issue.url.as_str()) {
        return Ok(());
    }
    let n: usize = store.issues.len();
    if n as u64 >= i64::MAX as u64 {
        return Err(StoreError::Full);
    }
    let mut stored = issue.clone();
    stored.id = n as i64 + 1;
    let row = IssueRow { issue: stored, inserted_at: now };
    store.issues.push(row);
    proof {
        let before = old(store)@;
        let after = final(store)@;
        assert(after.issues =~= before.issues.push(row@));
        assert(row@.issue == (IssueView { id: (before.issues.len() + 1) as i64, ..issue@ }));
        assert forall|i: int, j: int| 0 <= i < j < after.issues.len() implies (
        #[trigger] after.issues[i]).issue.url != (#[trigger] after.issues[j]).issue.url by {
            if j < before.issues.len() {
                assert(before.issues[i].issue.url != before.issues[j].issue.url);
            } else {
                assert(before.issues[i].issue.url != issue@.url);
            }
        }
        assert forall|i: int| 0 <= i < after.issues.len() implies (#[trigger] after.issues[i]).issue.id
            == i + 1 by {
            if i < before.issues.len() {
                assert(before.issues[i].issue.id == i + 1);
            }
        }
    }
    Ok(())
}

/// Stores an issue, stamped with the current time, unless its URL is already
/// stored. Whatever the clock reads, a known URL changes nothing and a new
/// one adds exactly one row.
pub fn insert_issue(store: &mut Store, issue: &Issue) -> (r: Result<(), StoreError>)
    requires
        old(store).wf(),
    ensures
        final(store).wf(),
        r == old(store)@.insert_outcome(issue@.url),
        exists|now: Seq<char>| final(store)@ == #[trigger] old(store)@.after_insert(issue@, now),
{
    let now = now_rfc3339();
    let ghost stamp = now@;
    let r = insert_issue_at(store, issue, now);
    proof {
        assert(final(store)@ == old(store)@.after_insert(issue@, stamp));
    }
    r
}

/// Placing an issue puts it at the one index behind which every issue was
/// created before it and in front of which the nearest one was not.
proof fn lemma_placed_at(s: Seq<IssueView>, x: IssueView, at: int)
    requires
        0 <= at <= s.len(),
        forall|k: int| at <= k < s.len() ==> text_before((#[trigger] s[k]).created_at, x.created_at),
        at == 0 || !text_before(s[at - 1].created_at, x.created_at),
    ensures
        placed(s, x) == s.insert(at, x),
    decreases s.len(),
{
    if s.len() > 0 && text_before(s.last().created_at, x.created_at) {
        assert(at < s.len());
        let front = s.drop_last();
        assert forall|k: int| at <= k < front.len() implies text_before(
            (#[trigger] front[k]).created_at,
            x.created_at,
        ) by {
            assert(front[k] == s[k]);
        }
        lemma_placed_at(front, x, at);
        assert(front.insert(at, x).push(s.last()) =~= s.insert(at, x));
    } else {
        if at < s.len() {
            assert(text_before(s[s.len() - 1].created_at, x.created_at));
        }
        assert(s.push(x) =~= s.insert(at, x));
    }
}

/// Placing an issue lengthens the sequence by one.
pub proof fn lemma_placed_len(s: Seq<IssueView>, x: IssueView)
    ensures
        placed(s, x).len() == s.len() + 1,
    decreases s.len(),
{
    if s.len() > 0 && text_before(s.last().created_at, x.created_at) {
        lemma_placed_len(s.drop_last(), x);
    }
}

/// Ranking newest first neither drops nor adds an issue.
pub proof fn lemma_newest_first_len(s: Seq<IssueView>)
    ensures
        newest_first(s).len() == s.len(),
    decreases s.len(),
{
    if s.len() > 0 {
        lemma_newest_first_len(s.drop_last());
        lemma_placed_len(newest_first(s.drop_last()), s.last());
    }
}

/// The product of two 64-bit factors, one of them lowered by at most one, fits in 128 bits.
proof fn lemma_product_fits(a: int, b: int)
    requires
        -0x8000_0000_0000_0001 <= a <= 0x8000_0000_0000_0001,
        -0x8000_0000_0000_0001 <= b <= 0x8000_0000_0000_0001,
    ensures
        -0x4000_0000_0000_0001_0000_0000_0000_0001 <= a * b <= 0x4000_0000_0000_0001_0000_0000_0000_0001,
{
    let m: int = 0x8000_0000_0000_0001;
    assert((m - a) * (m - b) >= 0 && (m + a) * (m + b) >= 0 && (m - a) * (m + b) >= 0 && (m + a)
        * (m - b) >= 0) by (nonlinear_arith)
        requires
            -m <= a <= m,
            -m <= b <= m,
    ;
    assert(-(m * m) <= a * b <= m * m) by (nonlinear_arith)
        requires
            (m - a) * (m - b) >= 0,
            (m + a) * (m + b) >= 0,
            (m - a) * (m + b) >= 0,
            (m + a) * (m - b) >= 0,
    ;
    assert(m * m == 0x4000_0000_0000_0001_0000_0000_0000_0001) by (nonlinear_arith)
        requires
            m == 0x8000_0000_0000_0001,
    ;
}

/// Brings an offset into the range of a sequence of `len` items.
fn clip_index(x: i128, len: usize) -> (r: usize)
    ensures
        r == clip(x as int, len as int),
{
    if x < 0 {
        0
    } else if x > len as i128 {
        len
    } else {
        x as usize
    }
}

impl Store {
    /// The stored issues with at least `min_stars` stars, newest first.
    fn ranked_issues(&self, min_stars: i64) -> (out: Vec<Issue>)
        ensures
            issue_views(out@) == self@.ranked(min_stars),
            out@.len() == self@.matching(min_stars).len(),
            out@.len() <= self@.issues.len(),
    {
        let mut out: Vec<Issue> = Vec::new();
        let mut i: usize = 0;
        proof {
            assert(issue_views(out@) =~= Seq::<IssueView>::empty());
        }
        while i < self.issues.len()
            invariant
                i <= self.issues@.len(),
                issue_views(out@) == newest_first(with_min_stars(self@.issues.take(i as int), min_stars)),
                out@.len() == with_min_stars(self@.issues.take(i as int), min_stars).len(),
                out@.len() <= i,
            decreases self.issues@.len() - i,
        {
            let ghost seen = with_min_stars(self@.issues.take(i as int), min_stars);
            proof {
                assert(self@.issues.take(i + 1).drop_last() =~= self@.issues.take(i as int));
                assert(self@.issues.take(i + 1).last() == self.issues@[i as int]@);
            }
            if self.issues[i].issue.star_count >= min_stars {
                let x = self.issues[i].issue.clone();
                let mut j: usize = out.len();
                while j > 0 && comes_before(out[j - 1].created_at.as_str(), x.created_at.as_str())
                    invariant
                        j <= out@.len(),
                        forall|k: int|
                            j <= k < out@.len() ==> text_before(
                                (#[trigger] out@[k])@.created_at,
                                x@.created_at,
                            ),
                    decreases j,
                {
                    j -= 1;
                }
                proof {
                    let ranked = issue_views(out@);
                    assert forall|k: int| j <= k < ranked.len() implies text_before(
                        (#[trigger] ranked[k]).created_at,
                        x@.created_at,
                    ) by {
                        assert(ranked[k] == out@[k]@);
                    }
                    lemma_placed_at(ranked, x@, j as int);
                    assert(seen.push(x@).drop_last() =~= seen);
                }
                let ghost before = out@;
                out.insert(j, x);
                proof {
                    assert(issue_views(out@) =~= issue_views(before).insert(j as int, x@));
                }
            }
            i += 1;
        }
        proof {
            assert(self@.issues.take(i as int) =~= self@.issues);
        }
        out
    }
}

/// Answers a page query: the issues with at least `min_stars` stars, newest
/// first by creation timestamp, cut to the slice from `(page - 1) * per_page`
/// up to `page * per_page`; beside them the number of all matching issues.
pub fn get_paginated_issues(store: &Store, page: i64, per_page: i64, min_stars: i64) -> (r: Result<
    (Vec<Issue>, i64),
    StoreError,
>)
    requires
        store.wf(),
    ensures
        match r {
            Ok((issues, total)) => {
                &&& store@.ready
                &&& issue_views(issues@) == page_of(store@.ranked(min_stars), page as int, per_page as int)
                &&& total == store@.matching(min_stars).len()
            },
            Err(e) => !store@.ready && e == StoreError::NotInitialized,
        },
{
    if !store.ready {
        return Err(StoreError::NotInitialized);
    }
    let ranked = store.ranked_issues(min_stars);
    let n: usize = ranked.len();
    proof {
        lemma_product_fits(page as int - 1, per_page as int);
        lemma_product_fits(page as int, per_page as int);
    }
    let lo: usize = clip_index((page as i128 - 1) * (per_page as i128), n);
    let hi: usize = clip_index((page as i128) * (per_page as i128), n);
    let mut issues: Vec<Issue> = Vec::new();
    let mut k: usize = lo;
    while k < hi
        invariant
            lo <= k,
            hi <= n,
            n == ranked@.len(),
            lo < hi ==> k <= hi,
            lo < hi ==> issue_views(issues@) == issue_views(ranked@).subrange(lo as int, k as int),
            lo >= hi ==> issues@.len() == 0,
        decreases hi - k,
    {
        let ghost before = issues@;
        issues.push(ranked[k].clone());
        proof {
            assert(issue_views(issues@) =~= issue_views(before).push(ranked@[k as int]@));
            assert(issue_views(ranked@).subrange(lo as int, k + 1) =~= issue_views(ranked@).subrange(
                lo as int,
                k as int,
            ).push(ranked@[k as int]@));
        }
        k += 1;
    }
    proof {
        store.lemma_wf_view();
        if lo >= hi {
            assert(issue_views(issues@) =~= Seq::<IssueView>::empty());
        }
    }
    Ok((issues, n as i64))
}

} // verus!
