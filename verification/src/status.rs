//! The state of a crawl: what is counted of its results, how a crawl in the
//! background starts and ends, and how the states of many are listed.

use vstd::prelude::*;

use crate::cache::{in_dir, path_in, CachedView};
use crate::crawl::{finished, plan_of, CrawlResult, ItemView, PlanView, ResultView};
use crate::error::{AppError, AppResult, ErrorView};
use crate::scrape::FetchView;
use crate::system::{random_number, Timestamp};
use crate::text::{char_count, ends, ends_with, hex, same, show_hex};

verus! {

/// What is known of a crawl that runs in the background.
#[derive(Debug)]
pub struct CrawlStatus {
    pub id: String,
    /// The process of the crawl, zero before there is one.
    pub pid: u32,
    pub seed: String,
    /// Whether the crawl is `starting`, `running`, `completed`, `failed` or `stopped`.
    pub status: String,
    pub pages: usize,
    pub new: usize,
    pub changed: usize,
    pub unchanged: usize,
    pub errors: usize,
    pub started_at: Timestamp,
    pub updated_at: Timestamp,
    pub error: String,
}

/// What a [`CrawlStatus`] holds.
#[verifier::ext_equal]
pub struct CrawlView {
    pub id: Seq<char>,
    pub pid: u32,
    pub seed: Seq<char>,
    pub status: Seq<char>,
    pub counts: Counts,
    pub started_at: Timestamp,
    pub updated_at: Timestamp,
    pub error: Seq<char>,
}

/// How many results a crawl had, and of which kinds.
pub struct Counts {
    pub pages: int,
    pub new: int,
    pub changed: int,
    pub unchanged: int,
    pub errors: int,
}

impl Counts {
    /// The counts before the first result.
    pub open spec fn zero() -> Counts {
        Counts { pages: 0, new: 0, changed: 0, unchanged: 0, errors: 0 }
    }

    /// Whether no result is counted twice.
    pub open spec fn valid(self) -> bool {
        &&& self.new >= 0
        &&& self.changed >= 0
        &&& self.unchanged >= 0
        &&& self.errors >= 0
        &&& self.new + self.changed + self.unchanged + self.errors <= self.pages
    }

    /// The counts after another result: a failure where it has an error, else what
    /// its status says.
    pub open spec fn after(self, result: ResultView) -> Counts {
        let failed = result.error.len() > 0;
        Counts {
            pages: self.pages + 1,
            errors: self.errors + one_if(failed),
            new: self.new + one_if(!failed && result.status == "new"@),
            changed: self.changed + one_if(!failed && result.status == "changed"@),
            unchanged: self.unchanged + one_if(!failed && result.status == "unchanged"@),
        }
    }

    /// The counts after the results before index `j`, from none on.
    pub open spec fn of(results: Seq<ResultView>, j: int) -> Counts
        decreases j,
    {
        if j <= 0 || j > results.len() {
            Counts::zero()
        } else {
            Counts::of(results, j - 1).after(results[j - 1])
        }
    }
}

/// Whether a result has an error or one of the three statuses.
pub open spec fn accounted(result: ResultView) -> bool {
    result.error.len() > 0 || result.status == "new"@ || result.status == "changed"@
        || result.status == "unchanged"@
}

/// One where `b` holds, else zero.
pub open spec fn one_if(b: bool) -> int {
    if b {
        1
    } else {
        0
    }
}

/// The kinds of results.
enum Kind {
    New,
    Changed,
    Unchanged,
    Failed,
    Other,
}

/// The counts after a result of `kind`.
spec fn counted(counts: Counts, kind: Kind) -> Counts {
    Counts {
        pages: counts.pages + 1,
        errors: counts.errors + one_if(kind is Failed),
        new: counts.new + one_if(kind is New),
        changed: counts.changed + one_if(kind is Changed),
        unchanged: counts.unchanged + one_if(kind is Unchanged),
    }
}

fn kind_of(result: &CrawlResult) -> (r: Kind)
    ensures
        forall|counts: Counts| counts.after(result@) == #[trigger] counted(counts, r),
{
    proof {
        reveal_strlit("new");
        reveal_strlit("changed");
        reveal_strlit("unchanged");
        assert("new"@.len() == 3 && "changed"@.len() == 7 && "unchanged"@.len() == 9);
    }
    if char_count(result.error.as_str()) > 0 {
        Kind::Failed
    } else if same(result.status.as_str(), "new") {
        Kind::New
    } else if same(result.status.as_str(), "changed") {
        Kind::Changed
    } else if same(result.status.as_str(), "unchanged") {
        Kind::Unchanged
    } else {
        Kind::Other
    }
}

impl View for CrawlStatus {
    type V = CrawlView;

    open spec fn view(&self) -> CrawlView {
        CrawlView {
            id: self.id@,
            pid: self.pid,
            seed: self.seed@,
            status: self.status@,
            counts: Counts {
                pages: self.pages as int,
                new: self.new as int,
                changed: self.changed as int,
                unchanged: self.unchanged as int,
                errors: self.errors as int,
            },
            started_at: self.started_at,
            updated_at: self.updated_at,
            error: self.error@,
        }
    }
}

impl CrawlView {
    /// A crawl that begins at `now`.
    pub open spec fn begun(
        id: Seq<char>,
        pid: u32,
        seed: Seq<char>,
        status: Seq<char>,
        now: Timestamp,
    ) -> CrawlView {
        CrawlView {
            id: id,
            pid: pid,
            seed: seed,
            status: status,
            counts: Counts::zero(),
            started_at: now,
            updated_at: now,
            error: seq![],
        }
    }

    /// Whether the crawl has come to its end.
    pub open spec fn over(self) -> bool {
        self.status == "completed"@ || self.status == "failed"@ || self.status == "stopped"@
    }

    /// The crawl after another result.
    pub open spec fn after(self, result: ResultView) -> CrawlView {
        CrawlView { counts: self.counts.after(result), ..self }
    }

    /// The crawl after the results before index `j`.
    pub open spec fn after_all(self, results: Seq<ResultView>, j: int) -> CrawlView
        decreases j,
    {
        if j <= 0 || j > results.len() {
            self
        } else {
            self.after_all(results, j - 1).after(results[j - 1])
        }
    }

    /// The crawl after it came to an end.
    pub open spec fn ended(self, ending: Ending) -> CrawlView {
        match ending {
            Ending::Completed => CrawlView { status: "completed"@, ..self },
            Ending::Failed(error) => CrawlView { status: "failed"@, error: error@, ..self },
            Ending::Interrupted => CrawlView { status: "stopped"@, error: seq![], ..self },
        }
    }

    /// The crawl after a signal: stopped, unless it was over.
    pub open spec fn cancelled(self) -> CrawlView {
        if self.over() {
            self
        } else {
            CrawlView { status: "stopped"@, ..self }
        }
    }
}

/// How a crawl in its own process comes to an end.
#[derive(Debug)]
pub enum Ending {
    /// It has visited everything.
    Completed,
    /// It could not go on, for this reason.
    Failed(String),
    /// It was interrupted.
    Interrupted,
}

impl CrawlStatus {
    /// A crawl of `seed` that is about to get a process.
    pub fn starting(id: String, seed: String, now: Timestamp) -> (r: Self)
        ensures
            r@ == CrawlView::begun(id@, 0, seed@, "starting"@, now),
    {
        CrawlStatus::begin(id, 0, seed, "starting".to_owned(), now)
    }

    /// A crawl of `seed` in the process `pid`.
    pub fn running(id: String, pid: u32, seed: String, now: Timestamp) -> (r: Self)
        ensures
            r@ == CrawlView::begun(id@, pid, seed@, "running"@, now),
    {
        CrawlStatus::begin(id, pid, seed, "running".to_owned(), now)
    }

    fn begin(id: String, pid: u32, seed: String, status: String, now: Timestamp) -> (r: Self)
        ensures
            r@ == CrawlView::begun(id@, pid, seed@, status@, now),
    {
        CrawlStatus {
            id,
            pid,
            seed,
            status,
            pages: 0,
            new: 0,
            changed: 0,
            unchanged: 0,
            errors: 0,
            started_at: now,
            updated_at: now,
            error: String::new(),
        }
    }

    /// Counts `result`, and says whether the state is to be written: every tenth time.
    pub fn record(&mut self, result: &CrawlResult) -> (r: bool)
        requires
            old(self)@.counts.valid(),
            old(self).pages < usize::MAX,
        ensures
            final(self)@ == old(self)@.after(result@),
            final(self)@.counts.valid(),
            r == (final(self).pages % 10 == 0),
    {
        let kind = kind_of(result);
        self.pages = self.pages + 1;
        match kind {
            Kind::Failed => {
                self.errors = self.errors + 1;
            },
            Kind::New => {
                self.new = self.new + 1;
            },
            Kind::Changed => {
                self.changed = self.changed + 1;
            },
            Kind::Unchanged => {
                self.unchanged = self.unchanged + 1;
            },
            Kind::Other => {},
        }
        assert(self@.counts == counted(old(self)@.counts, kind));
        self.pages % 10 == 0
    }

    /// The crawl has visited everything.
    pub fn complete(&mut self)
        ensures
            final(self)@ == (CrawlView { status: "completed"@, ..old(self)@ }),
    {
        self.status = "completed".to_owned();
    }

    /// The crawl was interrupted in its own process.
    pub fn stop(&mut self)
        ensures
            final(self)@ == (CrawlView { status: "stopped"@, error: seq![], ..old(self)@ }),
    {
        self.status = "stopped".to_owned();
        self.error = String::new();
    }

    /// The crawl has come to an end.
    pub fn end(&mut self, ending: Ending)
        ensures
            final(self)@ == old(self)@.ended(ending),
    {
        match ending {
            Ending::Completed => self.complete(),
            Ending::Failed(error) => mark_crawl_status_failed(self, error),
            Ending::Interrupted => self.stop(),
        }
    }

    /// The process of the crawl was interrupted: the crawl is stopped, unless it was
    /// over. Says whether that changed anything.
    pub fn cancel(&mut self) -> (r: bool)
        ensures
            final(self)@ == old(self)@.cancelled(),
            r == !old(self)@.over(),
    {
        if same(self.status.as_str(), "completed") || same(self.status.as_str(), "failed") || same(
            self.status.as_str(),
            "stopped",
        ) {
            return false;
        }
        self.status = "stopped".to_owned();
        true
    }

    /// The state is written at `now`.
    pub fn touch(&mut self, now: Timestamp)
        ensures
            final(self)@ == (CrawlView { updated_at: now, ..old(self)@ }),
    {
        self.updated_at = now;
    }
}

/// The crawl could not go on, because of `error`.
pub fn mark_crawl_status_failed(status: &mut CrawlStatus, error: String)
    ensures
        final(status)@ == (CrawlView { status: "failed"@, error: error@, ..old(status)@ }),
{
    status.status = "failed".to_owned();
    status.error = error;
}

/// Why a crawl cannot be stopped, if it cannot.
pub open spec fn stop_error(crawl: CrawlView, id: Seq<char>) -> Option<ErrorView> {
    if crawl.status != "running"@ {
        Some(
            ErrorView::Precondition(
                "crawl "@ + id + " is not running (status: "@ + crawl.status + ")"@,
            ),
        )
    } else if crawl.pid == 0 {
        Some(ErrorView::Upstream("failed to stop crawl: crawl has no worker pid yet"@))
    } else {
        None
    }
}

/// The process to stop for the crawl `id`.
pub fn stop_target(status: &CrawlStatus, id: &str) -> (r: AppResult<u32>)
    ensures
        match r {
            Ok(pid) => stop_error(status@, id@) is None && pid == status.pid,
            Err(e) => stop_error(status@, id@) == Some(e@),
        },
{
    if !same(status.status.as_str(), "running") {
        let mut message = "crawl ".to_owned();
        message.append(id);
        message.append(" is not running (status: ");
        message.append(status.status.as_str());
        message.append(")");
        return Err(AppError::precondition(message));
    }
    if status.pid == 0 {
        return Err(
            AppError::upstream("failed to stop crawl: crawl has no worker pid yet".to_owned()),
        );
    }
    Ok(status.pid)
}

/// The name of a crawl with a number.
pub open spec fn crawl_id(value: u32) -> Seq<char> {
    "c_"@ + hex(value as int, 8)
}

/// The name of the crawl with the number `value`.
pub fn format_crawl_id(value: u32) -> (r: String)
    ensures
        r@ == crawl_id(value),
{
    let mut id = "c_".to_owned();
    id.append(show_hex(value, 8).as_str());
    id
}

/// A name for a crawl, with a number drawn at random.
pub fn generate_crawl_id() -> (r: String)
    ensures
        exists|value: u32| r@ == #[trigger] crawl_id(value),
{
    let value: u32 = random_number();
    let id = format_crawl_id(value);
    assert(id@ == crawl_id(value));
    id
}

/// Where the states of crawls are stored.
pub fn status_dir(cache_dir: &str) -> (r: String)
    ensures
        r@ == in_dir(cache_dir@, "crawls"@),
{
    path_in(cache_dir, "crawls")
}

/// Where the state of the crawl `id` is stored.
pub fn status_path(cache_dir: &str, id: &str) -> (r: String)
    ensures
        r@ == in_dir(in_dir(cache_dir@, "crawls"@), id@ + ".json"@),
{
    let mut file = id.to_owned();
    file.append(".json");
    path_in(status_dir(cache_dir).as_str(), file.as_str())
}

/// Whether a file in that directory holds the state of a crawl, by its name.
pub fn is_status_file(name: &str) -> (r: bool)
    ensures
        r == (ends(name@, ".json"@) && name@.len() > 5),
{
    ends_with(name, ".json") && char_count(name) > 5
}

/// What a list of states holds.
pub open spec fn crawls_of(statuses: Seq<CrawlStatus>) -> Seq<CrawlView> {
    Seq::new(statuses.len(), |i: int| statuses[i]@)
}

/// Where a crawl that was updated at `time` comes in a list: behind those that were
/// updated then or later.
pub open spec fn place_from(crawls: Seq<CrawlView>, time: int, i: int) -> int
    decreases crawls.len() - i,
{
    if i < 0 || i >= crawls.len() || crawls[i].updated_at.in_nanos() < time {
        i
    } else {
        place_from(crawls, time, i + 1)
    }
}

/// The crawls before index `j`, those that were updated last first.
pub open spec fn newest_before(crawls: Seq<CrawlView>, j: int) -> Seq<CrawlView>
    decreases j,
{
    if j <= 0 || j > crawls.len() {
        seq![]
    } else {
        let before = newest_before(crawls, j - 1);
        before.insert(
            place_from(before, crawls[j - 1].updated_at.in_nanos(), 0),
            crawls[j - 1],
        )
    }
}

/// The crawls, those that were updated last first.
pub open spec fn newest_first(crawls: Seq<CrawlView>) -> Seq<CrawlView> {
    newest_before(crawls, crawls.len() as int)
}

proof fn lemma_place(crawls: Seq<CrawlView>, time: int, i: int)
    requires
        0 <= i <= crawls.len(),
    ensures
        i <= place_from(crawls, time, i) <= crawls.len(),
        forall|k: int|
            i <= k < place_from(crawls, time, i) ==> (#[trigger] crawls[k]).updated_at.in_nanos()
                >= time,
        place_from(crawls, time, i) < crawls.len() ==> crawls[place_from(
            crawls,
            time,
            i,
        )].updated_at.in_nanos() < time,
    decreases crawls.len() - i,
{
    if i < crawls.len() && crawls[i].updated_at.in_nanos() >= time {
        lemma_place(crawls, time, i + 1);
    }
}

/// The states of crawls, those that were updated last first; those that were updated
/// at the same time stay in their order.
pub fn list_statuses(statuses: Vec<CrawlStatus>) -> (r: Vec<CrawlStatus>)
    ensures
        crawls_of(r@) == newest_first(crawls_of(statuses@)),
{
    let ghost all = crawls_of(statuses@);
    let ghost before = statuses@;
    let mut left = statuses;
    let mut waiting: Vec<CrawlStatus> = Vec::new();
    while left.len() > 0
        invariant
            left@.len() + waiting@.len() == before.len(),
            left@ == before.take(left@.len() as int),
            forall|k: int|
                0 <= k < waiting@.len() ==> #[trigger] waiting@[k] == before[before.len() - 1 - k],
        decreases left@.len(),
    {
        if let Some(status) = left.pop() {
            waiting.push(status);
        }
        assert(left@ =~= before.take(left@.len() as int));
    }
    let mut out: Vec<CrawlStatus> = Vec::new();
    assert(crawls_of(out@) =~= newest_before(all, 0));
    while waiting.len() > 0
        invariant
            all == crawls_of(before),
            waiting@.len() <= before.len(),
            forall|k: int|
                0 <= k < waiting@.len() ==> #[trigger] waiting@[k] == before[before.len() - 1 - k],
            crawls_of(out@) == newest_before(all, before.len() - waiting@.len()),
        decreases waiting@.len(),
    {
        let ghost j = before.len() - waiting@.len();
        if let Some(status) = waiting.pop() {
            assert(status@ == all[j]);
            let time: i128 = status.updated_at.as_nanos();
            let ghost view = crawls_of(out@);
            let mut i: usize = 0;
            let mut more = true;
            proof {
                lemma_place(view, time as int, 0);
            }
            while more && i < out.len()
                invariant
                    view == crawls_of(out@),
                    i <= out@.len(),
                    place_from(view, time as int, 0) == place_from(view, time as int, i as int),
                    !more ==> place_from(view, time as int, 0) == i,
                decreases out@.len() - i, more as int,
            {
                assert(view[i as int] == out@[i as int]@);
                if out[i].updated_at.as_nanos() < time {
                    more = false;
                } else {
                    i += 1;
                }
            }
            out.insert(i, status);
            assert(crawls_of(out@) =~= view.insert(i as int, all[j]));
        }
    }
    out
}

proof fn lemma_newest(crawls: Seq<CrawlView>, j: int)
    requires
        0 <= j <= crawls.len(),
    ensures
        newest_before(crawls, j).len() == j,
        newest_before(crawls, j).to_multiset() == crawls.take(j).to_multiset(),
        forall|a: int, b: int|
            0 <= a < b < j ==> (#[trigger] newest_before(crawls, j)[a]).updated_at.in_nanos() >= (
            #[trigger] newest_before(crawls, j)[b]).updated_at.in_nanos(),
    decreases j,
{
    broadcast use vstd::seq_lib::group_to_multiset_ensures;

    if j == 0 {
        assert(crawls.take(0) =~= newest_before(crawls, 0));
    } else {
        lemma_newest(crawls, j - 1);
        let before = newest_before(crawls, j - 1);
        let x = crawls[j - 1];
        let at = place_from(before, x.updated_at.in_nanos(), 0);
        lemma_place(before, x.updated_at.in_nanos(), 0);
        assert(crawls.take(j) =~= crawls.take(j - 1).push(x));
        assert(before.insert(at, x).to_multiset() =~= before.to_multiset().insert(x));
        assert(crawls.take(j).to_multiset() =~= crawls.take(j - 1).to_multiset().insert(x));
        let after = newest_before(crawls, j);
        assert(after == before.insert(at, x));
        assert forall|a: int, b: int| 0 <= a < b < j implies (
        #[trigger] after[a]).updated_at.in_nanos() >= (
        #[trigger] after[b]).updated_at.in_nanos() by {
            let a0 = if a < at {
                a
            } else {
                a - 1
            };
            let b0 = if b < at {
                b
            } else {
                b - 1
            };
            if a != at {
                assert(after[a] == before[a0]);
            }
            if b != at {
                assert(after[b] == before[b0]);
            }
            if a == at && b0 > at {
                assert(before[at].updated_at.in_nanos() >= before[b0].updated_at.in_nanos());
            }
        }
    }
}

/// Those that were updated at a given time.
pub open spec fn updated_at(time: int) -> spec_fn(CrawlView) -> bool {
    |crawl: CrawlView| crawl.updated_at.in_nanos() == time
}

proof fn lemma_none_left(crawls: Seq<CrawlView>, time: int)
    requires
        forall|k: int|
            0 <= k < crawls.len() ==> (#[trigger] crawls[k]).updated_at.in_nanos() != time,
    ensures
        crawls.filter(updated_at(time)) =~= seq![],
    decreases crawls.len(),
{
    reveal(Seq::filter);
    if crawls.len() > 0 {
        lemma_none_left(crawls.drop_last(), time);
        assert(crawls.last() == crawls[crawls.len() - 1]);
    }
}

proof fn lemma_order_kept(crawls: Seq<CrawlView>, j: int, time: int)
    requires
        0 <= j <= crawls.len(),
    ensures
        newest_before(crawls, j).filter(updated_at(time)) == crawls.take(j).filter(
            updated_at(time),
        ),
    decreases j,
{
    let p = updated_at(time);
    if j == 0 {
        assert(crawls.take(0) =~= newest_before(crawls, 0));
    } else {
        lemma_order_kept(crawls, j - 1, time);
        lemma_newest(crawls, j - 1);
        let before = newest_before(crawls, j - 1);
        let x = crawls[j - 1];
        let at = place_from(before, x.updated_at.in_nanos(), 0);
        lemma_place(before, x.updated_at.in_nanos(), 0);
        let front = before.take(at);
        let back = before.skip(at);
        assert(before.insert(at, x) =~= front + seq![x] + back);
        assert(before =~= front + back);
        assert(crawls.take(j) =~= crawls.take(j - 1) + seq![x]);
        Seq::filter_distributes_over_add(front + seq![x], back, p);
        Seq::filter_distributes_over_add(front, seq![x], p);
        Seq::filter_distributes_over_add(front, back, p);
        Seq::filter_distributes_over_add(crawls.take(j - 1), seq![x], p);
        if p(x) {
            assert forall|k: int| 0 <= k < back.len() implies (
            #[trigger] back[k]).updated_at.in_nanos() != time by {
                assert(back[k] == before[at + k]);
                assert(before[at].updated_at.in_nanos() < time);
            }
            lemma_none_left(back, time);
            assert(front.filter(p) + seq![x].filter(p) + back.filter(p) =~= front.filter(p)
                + back.filter(p) + seq![x].filter(p));
        } else {
            assert(seq![x][0] == x);
            lemma_none_left(seq![x], time);
            assert(front.filter(p) + seq![x].filter(p) + back.filter(p) =~= front.filter(p)
                + back.filter(p) + seq![x].filter(p));
        }
    }
}

/// A list of crawls shows each of them once, one that was updated later never comes
/// behind one that was updated earlier, and those that were updated at the same time
/// stay in their order.
pub proof fn law_the_latest_crawls_come_first(crawls: Seq<CrawlView>, time: int)
    ensures
        newest_first(crawls).filter(updated_at(time)) == crawls.filter(updated_at(time)),
        newest_first(crawls).to_multiset() == crawls.to_multiset(),
        forall|a: int, b: int|
            0 <= a < b < crawls.len() ==> (
            #[trigger] newest_first(crawls)[a]).updated_at.in_nanos() >= (
            #[trigger] newest_first(crawls)[b]).updated_at.in_nanos(),
{
    lemma_newest(crawls, crawls.len() as int);
    lemma_order_kept(crawls, crawls.len() as int, time);
    assert(crawls.take(crawls.len() as int) =~= crawls);
}

/// Whatever the results of a crawl are, each is counted once at most among the new,
/// the changed, the unchanged and the failed ones, and all are counted as pages.
pub proof fn law_results_are_counted_once(results: Seq<ResultView>, j: int)
    requires
        0 <= j <= results.len(),
    ensures
        Counts::of(results, j).valid(),
        Counts::of(results, j).pages == j,
    decreases j,
{
    if j > 0 {
        law_results_are_counted_once(results, j - 1);
        reveal_strlit("new");
        reveal_strlit("changed");
        reveal_strlit("unchanged");
        assert("new"@.len() == 3 && "changed"@.len() == 7 && "unchanged"@.len() == 9);
    }
}

/// Where each result of a crawl has an error or one of the three statuses, the new, the
/// changed, the unchanged and the failed ones are all the pages.
pub proof fn law_the_counts_add_up(results: Seq<ResultView>, j: int)
    requires
        0 <= j <= results.len(),
        forall|i: int| 0 <= i < results.len() ==> accounted(#[trigger] results[i]),
    ensures
        ({
            let counts = Counts::of(results, j);
            counts.pages == j && counts.new + counts.changed + counts.unchanged + counts.errors == j
        }),
    decreases j,
{
    if j > 0 {
        law_the_counts_add_up(results, j - 1);
        reveal_strlit("new");
        reveal_strlit("changed");
        reveal_strlit("unchanged");
        assert("new"@.len() == 3 && "changed"@.len() == 7 && "unchanged"@.len() == 9);
        assert(accounted(results[j - 1]));
    }
}

/// Every result of a crawl has an error or one of the three statuses, whatever the cache
/// had and the fetch gave, as long as a fetch that fails says why.
pub proof fn law_every_result_is_accounted_for(
    item: ItemView,
    cached: Option<CachedView>,
    has_browser: bool,
    force_browser: bool,
    outcome: Result<FetchView, Seq<char>>,
    max_depth: int,
)
    requires
        outcome matches Err(message) ==> message.len() > 0,
    ensures
        finished(item, cached, outcome, max_depth).0.result matches Some(result) ==> accounted(
            result,
        ),
        plan_of(item, cached, has_browser, force_browser) matches PlanView::Done(processed) ==> (
        processed.result matches Some(result) && accounted(result)),
{
}

proof fn lemma_after_all(crawl: CrawlView, results: Seq<ResultView>, j: int)
    requires
        0 <= j <= results.len(),
        crawl.counts == Counts::zero(),
    ensures
        crawl.after_all(results, j) == (CrawlView { counts: Counts::of(results, j), ..crawl }),
    decreases j,
{
    if j > 0 {
        lemma_after_all(crawl, results, j - 1);
    }
}

/// The last state of a crawl in its own process tells how it ended, and its counts are
/// those of its results: a completed one has no error, a failed one has its own, and one
/// that was interrupted has none.
pub proof fn law_the_last_state_tells_the_ending(
    id: Seq<char>,
    pid: u32,
    seed: Seq<char>,
    now: Timestamp,
    results: Seq<ResultView>,
    ending: Ending,
)
    requires
        forall|i: int| 0 <= i < results.len() ==> accounted(#[trigger] results[i]),
    ensures
        ({
            let last = CrawlView::begun(id, pid, seed, "running"@, now).after_all(
                results,
                results.len() as int,
            ).ended(ending);
            &&& last.counts == Counts::of(results, results.len() as int)
            &&& last.counts.pages == results.len()
            &&& last.counts.new + last.counts.changed + last.counts.unchanged + last.counts.errors
                == results.len()
            &&& match ending {
                Ending::Completed => last.status == "completed"@ && last.error.len() == 0,
                Ending::Failed(error) => last.status == "failed"@ && last.error == error@,
                Ending::Interrupted => last.status == "stopped"@ && last.error.len() == 0,
            }
        }),
{
    lemma_after_all(
        CrawlView::begun(id, pid, seed, "running"@, now),
        results,
        results.len() as int,
    );
    law_the_counts_add_up(results, results.len() as int);
}

/// A crawl that is over stays as it is when its process is interrupted, and one that
/// was interrupted is over; what was counted stays.
pub proof fn law_cancelling_keeps_what_was_counted(crawl: CrawlView)
    ensures
        crawl.over() ==> crawl.cancelled() == crawl,
        crawl.cancelled().over(),
        crawl.cancelled().counts == crawl.counts,
        crawl.cancelled().cancelled() == crawl.cancelled(),
{
}

/// What is counted of a crawl whose results are shown as they come.
#[derive(Debug)]
pub struct Tally {
    pub total: usize,
    pub new: usize,
    pub changed: usize,
    pub unchanged: usize,
    pub errors: usize,
    /// Whether a page was shown.
    pub shown: bool,
}

impl View for Tally {
    type V = Counts;

    open spec fn view(&self) -> Counts {
        Counts {
            pages: self.total as int,
            new: self.new as int,
            changed: self.changed as int,
            unchanged: self.unchanged as int,
            errors: self.errors as int,
        }
    }
}

/// What is to be shown of a result.
#[derive(Debug, Clone, Copy, PartialEq, Eq, Structural)]
pub enum Showing {
    /// A warning, with its error.
    Warning,
    /// Its page, the first one.
    FirstPage,
    /// Its page, after others.
    NextPage,
    Nothing,
}

impl Tally {
    /// Before the first result.
    pub fn new() -> (r: Self)
        ensures
            r@ == Counts::zero(),
            !r.shown,
    {
        Tally { total: 0, new: 0, changed: 0, unchanged: 0, errors: 0, shown: false }
    }

    /// Counts `result`, and says what is to be shown of it.
    pub fn record(&mut self, result: &CrawlResult) -> (r: Showing)
        requires
            old(self)@.valid(),
            old(self).total < usize::MAX,
        ensures
            final(self)@ == old(self)@.after(result@),
            final(self)@.valid(),
            final(self).shown == (old(self).shown || r is FirstPage || r is NextPage),
            r == (if result@.error.len() > 0 {
                Showing::Warning
            } else if result@.page is None {
                Showing::Nothing
            } else if old(self).shown {
                Showing::NextPage
            } else {
                Showing::FirstPage
            }),
    {
        let kind = kind_of(result);
        self.total = self.total + 1;
        match kind {
            Kind::Failed => {
                self.errors = self.errors + 1;
            },
            Kind::New => {
                self.new = self.new + 1;
            },
            Kind::Changed => {
                self.changed = self.changed + 1;
            },
            Kind::Unchanged => {
                self.unchanged = self.unchanged + 1;
            },
            Kind::Other => {},
        }
        assert(self@ == counted(old(self)@, kind));
        if char_count(result.error.as_str()) > 0 {
            Showing::Warning
        } else if result.page.is_none() {
            Showing::Nothing
        } else if self.shown {
            Showing::NextPage
        } else {
            self.shown = true;
            Showing::FirstPage
        }
    }

    /// How many results had no error.
    pub fn pages(&self) -> (r: usize)
        requires
            self@.valid(),
        ensures
            r == self@.pages - self@.errors,
    {
        self.total - self.errors
    }
}

/// A result counts as a page, and as what its status says unless it has an error, with which
/// it counts as a failure.
pub proof fn law_what_a_result_counts_as(counts: Counts, result: ResultView)
    ensures
        counts.after(result).pages == counts.pages + 1,
        result.error.len() > 0 ==> counts.after(result).errors == counts.errors + 1
            && counts.after(result).new == counts.new && counts.after(result).changed
            == counts.changed && counts.after(result).unchanged == counts.unchanged,
        result.error.len() == 0 && result.status == "new"@ ==> counts.after(result).new
            == counts.new + 1 && counts.after(result).changed == counts.changed && counts.after(
            result,
        ).unchanged == counts.unchanged && counts.after(result).errors == counts.errors,
        result.error.len() == 0 && result.status == "changed"@ ==> counts.after(result).changed
            == counts.changed + 1 && counts.after(result).new == counts.new && counts.after(
            result,
        ).unchanged == counts.unchanged && counts.after(result).errors == counts.errors,
        result.error.len() == 0 && result.status == "unchanged"@ ==> counts.after(result).unchanged
            == counts.unchanged + 1 && counts.after(result).new == counts.new && counts.after(
            result,
        ).changed == counts.changed && counts.after(result).errors == counts.errors,
{
    reveal_strlit("new");
    reveal_strlit("changed");
    reveal_strlit("unchanged");
    assert("new"@.len() == 3 && "changed"@.len() == 7 && "unchanged"@.len() == 9);
}

/// A crawl begins with nothing counted, at the time it begins, without an error.
pub proof fn law_how_a_crawl_begins(
    id: Seq<char>,
    pid: u32,
    seed: Seq<char>,
    status: Seq<char>,
    now: Timestamp,
)
    ensures
        ({
            let crawl = CrawlView::begun(id, pid, seed, status, now);
            &&& crawl.id == id
            &&& crawl.pid == pid
            &&& crawl.seed == seed
            &&& crawl.status == status
            &&& crawl.started_at == now
            &&& crawl.updated_at == now
            &&& crawl.error.len() == 0
            &&& crawl.counts.pages == 0
            &&& crawl.counts.new == 0
            &&& crawl.counts.changed == 0
            &&& crawl.counts.unchanged == 0
            &&& crawl.counts.errors == 0
        }),
{
}

/// A crawl is over once it is completed, failed or stopped, and not before. One that is not
/// over is stopped by a signal.
pub proof fn law_when_a_crawl_is_over(crawl: CrawlView)
    ensures
        crawl.over() <==> crawl.status == "completed"@ || crawl.status == "failed"@
            || crawl.status == "stopped"@,
        crawl.status == "running"@ || crawl.status == "starting"@ ==> !crawl.over()
            && crawl.cancelled().status == "stopped"@,
        crawl.cancelled().id == crawl.id,
        crawl.cancelled().seed == crawl.seed,
        crawl.cancelled().error == crawl.error,
{
    reveal_strlit("running");
    reveal_strlit("starting");
    reveal_strlit("completed");
    reveal_strlit("failed");
    reveal_strlit("stopped");
    assert("running"@.len() == 7 && "starting"@.len() == 8 && "completed"@.len() == 9
        && "failed"@.len() == 6 && "stopped"@.len() == 7);
    assert("running"@[0] == 'r' && "stopped"@[0] == 's');
}

/// The end of a crawl changes its status and its error, and nothing else.
pub proof fn law_an_ending_keeps_the_rest(crawl: CrawlView, ending: Ending)
    ensures
        crawl.ended(ending).over(),
        crawl.ended(ending).counts == crawl.counts,
        crawl.ended(ending).id == crawl.id,
        crawl.ended(ending).pid == crawl.pid,
        crawl.ended(ending).seed == crawl.seed,
        crawl.ended(ending).started_at == crawl.started_at,
        ending is Completed ==> crawl.ended(ending).error == crawl.error,
{
}

/// A crawl can be stopped exactly if it runs and has a process.
pub proof fn law_when_a_crawl_can_be_stopped(crawl: CrawlView, id: Seq<char>)
    ensures
        stop_error(crawl, id) is None <==> crawl.status == "running"@ && crawl.pid != 0,
        crawl.status != "running"@ ==> stop_error(crawl, id) == Some(
            ErrorView::Precondition(
                "crawl "@ + id + " is not running (status: "@ + crawl.status + ")"@,
            ),
        ),
        crawl.status == "running"@ && crawl.pid == 0 ==> stop_error(crawl, id) == Some(
            ErrorView::Upstream("failed to stop crawl: crawl has no worker pid yet"@),
        ),
{
}

/// The name of a crawl is `c_` and the eight hexadecimal digits of its number.
pub proof fn law_the_name_of_a_crawl(value: u32)
    ensures
        crawl_id(value).len() == 10,
        crawl_id(value).take(2) == seq!['c', '_'],
        crawl_id(value).skip(2) == hex(value as int, 8),
{
    reveal_strlit("c_");
    crate::text::law_hexadecimal_digits(value as int, 8);
    assert(crawl_id(value).take(2) =~= seq!['c', '_']);
    assert(crawl_id(value).skip(2) =~= hex(value as int, 8));
}

/// The state of a crawl is seen as its fields are.
pub proof fn law_what_the_state_of_a_crawl_holds(record: CrawlStatus)
    ensures
        record@.id == record.id@,
        record@.seed == record.seed@,
        record@.status == record.status@,
        record@.error == record.error@,
        record@.pid == record.pid,
        record@.started_at == record.started_at,
        record@.updated_at == record.updated_at,
        record@.counts.pages == record.pages,
        record@.counts.new == record.new,
        record@.counts.changed == record.changed,
        record@.counts.unchanged == record.unchanged,
        record@.counts.errors == record.errors,
{
}

/// A tally is seen as its fields are.
pub proof fn law_what_a_tally_holds(record: Tally)
    ensures
        record@.new == record.new,
        record@.changed == record.changed,
        record@.unchanged == record.unchanged,
        record@.errors == record.errors,
        record@.pages == record.total,
{
}

/// A list of states is seen as its states are, in their order.
pub proof fn law_what_a_list_of_states_holds(statuses: Seq<CrawlStatus>)
    ensures
        crawls_of(statuses).len() == statuses.len(),
        forall|i: int|
            0 <= i < statuses.len() ==> #[trigger] crawls_of(statuses)[i] == statuses[i]@,
{
}

} // verus!
