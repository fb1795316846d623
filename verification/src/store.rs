//! The query store: per-subscriber search queries with cooldown bookkeeping.
//!
//! Every mutation of the stored query sets goes through the small operation
//! set on [`QueryStore`], so the scheduler and a concurrent command interface
//! can share one store without ever touching the collection directly.

use vstd::prelude::*;

verus! {

/// The timestamp a newly added query starts with: 2000-01-01T00:00:00Z as
/// seconds since the Unix epoch.  It lies far enough in the past that a new
/// query is immediately due under any realistic cooldown.
pub const INITIAL_LAST_EXECUTED_AT: i64 = 946684800;

/// One stored search query of a subscriber.
#[derive(Debug)]
pub struct Query {
    /// Unique within the owning subscriber's query set.
    pub id: u64,
    /// The search keyword text; never empty for a stored query.
    pub text: String,
    /// Seconds since the Unix epoch of the last successful run.
    pub last_executed_at: i64,
}

/// The mathematical value of a [`Query`].
pub struct QueryView {
    pub id: int,
    pub text: Seq<char>,
    pub last_executed_at: int,
}

impl View for Query {
    type V = QueryView;

    open spec fn view(&self) -> QueryView {
        QueryView {
            id: self.id as int,
            text: self.text@,
            last_executed_at: self.last_executed_at as int,
        }
    }
}

/// One registered account with its query set.
#[derive(Debug)]
pub struct Subscriber {
    /// Stable opaque identifier of the subscriber's channel.
    pub subscriber_id: i64,
    /// Human-readable name, kept only for replies.
    pub display_name: String,
    /// The queries owned by this subscriber; ids and texts are unique.
    pub queries: Vec<Query>,
}

/// The mathematical value of a [`Subscriber`].
pub struct SubscriberView {
    pub subscriber_id: int,
    pub display_name: Seq<char>,
    pub queries: Seq<QueryView>,
}

impl View for Subscriber {
    type V = SubscriberView;

    open spec fn view(&self) -> SubscriberView {
        SubscriberView {
            subscriber_id: self.subscriber_id as int,
            display_name: self.display_name@,
            queries: qviews(self.queries@),
        }
    }
}

/// The views of a vector of queries.
pub open spec fn qviews(qs: Seq<Query>) -> Seq<QueryView> {
    qs.map_values(|q: Query| q@)
}

/// Whether a query set holds a query with the given id.
pub open spec fn has_qid(qs: Seq<QueryView>, qid: int) -> bool {
    exists|i: int| 0 <= i < qs.len() && qs[i].id == qid
}

/// The index of the query with the given id (meaningful only when present
/// and ids are unique).
pub open spec fn qid_at(qs: Seq<QueryView>, qid: int) -> int {
    choose|i: int| 0 <= i < qs.len() && qs[i].id == qid
}

/// Whether a query set holds a query with the given text.
pub open spec fn has_qtext(qs: Seq<QueryView>, text: Seq<char>) -> bool {
    exists|i: int| 0 <= i < qs.len() && qs[i].text == text
}

/// Query ids and texts are unique within one subscriber's query set.
pub open spec fn wf_queries(qs: Seq<QueryView>) -> bool {
    forall|i: int, j: int|
        0 <= i < j < qs.len() ==> qs[i].id != qs[j].id && qs[i].text != qs[j].text
}

/// Whether the store holds a subscriber with the given id.
pub open spec fn has_sub(s: Seq<SubscriberView>, sid: int) -> bool {
    exists|i: int| 0 <= i < s.len() && s[i].subscriber_id == sid
}

/// The index of the subscriber with the given id (meaningful only when
/// present and ids are unique).
pub open spec fn sub_at(s: Seq<SubscriberView>, sid: int) -> int {
    choose|i: int| 0 <= i < s.len() && s[i].subscriber_id == sid
}

/// Subscriber ids are unique and every query set is well formed.
pub open spec fn wf_store(s: Seq<SubscriberView>) -> bool {
    &&& forall|i: int, j: int|
        0 <= i < j < s.len() ==> s[i].subscriber_id != s[j].subscriber_id
    &&& forall|i: int| 0 <= i < s.len() ==> wf_queries(#[trigger] s[i].queries)
}

/// One due query queued for execution within a scheduling cycle; it lives
/// only for the duration of that cycle.
#[derive(Debug)]
pub struct SearchTask {
    pub subscriber_id: i64,
    pub query_id: u64,
    pub query_text: String,
    /// The instant the task was selected at; a successful run records this
    /// as the query's new `lastExecutedAt`.
    pub due_at: i64,
}

/// The mathematical value of a [`SearchTask`].
pub struct TaskView {
    pub subscriber_id: int,
    pub query_id: int,
    pub query_text: Seq<char>,
    pub due_at: int,
}

impl View for SearchTask {
    type V = TaskView;

    open spec fn view(&self) -> TaskView {
        TaskView {
            subscriber_id: self.subscriber_id as int,
            query_id: self.query_id as int,
            query_text: self.query_text@,
            due_at: self.due_at as int,
        }
    }
}

/// The views of a vector of tasks.
pub open spec fn tviews(ts: Seq<SearchTask>) -> Seq<TaskView> {
    ts.map_values(|t: SearchTask| t@)
}

/// A query is due once its cooldown has elapsed since the last successful
/// run.
pub open spec fn due(q: QueryView, now: int, cooldown: int) -> bool {
    now - q.last_executed_at >= cooldown
}

/// The task a due query turns into.
pub open spec fn task_of(sid: int, q: QueryView, now: int) -> TaskView {
    TaskView { subscriber_id: sid, query_id: q.id, query_text: q.text, due_at: now }
}

/// The tasks of one subscriber's due queries, in stored order.
pub open spec fn due_tasks_of(
    qs: Seq<QueryView>,
    sid: int,
    now: int,
    cooldown: int,
) -> Seq<TaskView>
    decreases qs.len(),
{
    if qs.len() == 0 {
        Seq::empty()
    } else {
        due_tasks_of(qs.drop_last(), sid, now, cooldown) + if due(qs.last(), now, cooldown) {
            seq![task_of(sid, qs.last(), now)]
        } else {
            Seq::empty()
        }
    }
}

/// Every due query across every subscriber, subscribers in stored order.
pub open spec fn due_tasks(s: Seq<SubscriberView>, now: int, cooldown: int) -> Seq<TaskView>
    decreases s.len(),
{
    if s.len() == 0 {
        Seq::empty()
    } else {
        due_tasks(s.drop_last(), now, cooldown) + due_tasks_of(
            s.last().queries,
            s.last().subscriber_id,
            now,
            cooldown,
        )
    }
}

/// A rejected store mutation; the store is unchanged whenever one of these
/// comes back.
#[derive(Clone, Copy, Debug, PartialEq, Eq, Structural)]
pub enum StoreError {
    /// An added query's text may not be empty.
    EmptyQueryText,
    /// The subscriber already has a query with the same text.
    DuplicateQuery,
    /// The targeted subscriber or query no longer exists.
    StaleReference,
}

/// `n` is the smallest non-negative id not used by any query in `qs`.
pub open spec fn is_min_unused_id(qs: Seq<QueryView>, n: int) -> bool {
    &&& 0 <= n
    &&& !has_qid(qs, n)
    &&& forall|k: int| 0 <= k < n ==> has_qid(qs, k)
}

/// The id a newly added query gets: the smallest unused non-negative
/// integer, so ids freed by removals are reused.
pub open spec fn spec_new_query_id(qs: Seq<QueryView>) -> int {
    choose|n: int| is_min_unused_id(qs, n)
}

/// How many queries of `qs` carry an id in `[0, m)`.
spec fn count_ids_below(qs: Seq<QueryView>, m: int) -> int
    decreases qs.len(),
{
    if qs.len() == 0 {
        0
    } else {
        count_ids_below(qs.drop_last(), m) + if 0 <= qs.last().id < m {
            1int
        } else {
            0int
        }
    }
}

proof fn lemma_count_ids_le_len(qs: Seq<QueryView>, m: int)
    ensures
        count_ids_below(qs, m) <= qs.len(),
    decreases qs.len(),
{
    if qs.len() > 0 {
        lemma_count_ids_le_len(qs.drop_last(), m);
    }
}

proof fn lemma_count_ids_step(qs: Seq<QueryView>, m: int)
    requires
        wf_queries(qs),
        m >= 1,
    ensures
        count_ids_below(qs, m) == count_ids_below(qs, m - 1) + if has_qid(qs, m - 1) {
            1int
        } else {
            0int
        },
    decreases qs.len(),
{
    if qs.len() == 0 {
    } else {
        let prefix = qs.drop_last();
        assert(wf_queries(prefix)) by {
            assert(forall|i: int, j: int|
                0 <= i < j < prefix.len() ==> prefix[i] == qs[i] && prefix[j] == qs[j]);
        }
        lemma_count_ids_step(prefix, m);
        let last = qs.last();
        if last.id == m - 1 {
            assert(has_qid(qs, m - 1));
            // the last query is the only one with this id
            assert(!has_qid(prefix, m - 1)) by {
                if has_qid(prefix, m - 1) {
                    let i = choose|i: int|
                        0 <= i < prefix.len() && prefix[i].id == m - 1;
                    assert(qs[i].id != qs[qs.len() - 1].id);
                }
            }
        } else {
            assert(has_qid(qs, m - 1) == has_qid(prefix, m - 1)) by {
                if has_qid(qs, m - 1) {
                    let i = choose|i: int| 0 <= i < qs.len() && qs[i].id == m - 1;
                    assert(i < qs.len() - 1);
                    assert(prefix[i].id == m - 1);
                }
                if has_qid(prefix, m - 1) {
                    let i = choose|i: int|
                        0 <= i < prefix.len() && prefix[i].id == m - 1;
                    assert(qs[i].id == m - 1);
                }
            }
        }
    }
}

proof fn lemma_all_used_count(qs: Seq<QueryView>, m: int)
    requires
        wf_queries(qs),
        0 <= m,
        forall|k: int| 0 <= k < m ==> has_qid(qs, k),
    ensures
        count_ids_below(qs, m) >= m,
    decreases m,
{
    if m > 0 {
        lemma_all_used_count(qs, m - 1);
        lemma_count_ids_step(qs, m);
    } else {
        lemma_count_nonneg(qs, m);
    }
}

proof fn lemma_count_nonneg(qs: Seq<QueryView>, m: int)
    ensures
        count_ids_below(qs, m) >= 0,
    decreases qs.len(),
{
    if qs.len() > 0 {
        lemma_count_nonneg(qs.drop_last(), m);
    }
}

/// If every id in `[0, m)` is used by one of `qs`'s queries, there are at
/// least `m` queries.
proof fn lemma_all_used_len(qs: Seq<QueryView>, m: int)
    requires
        wf_queries(qs),
        0 <= m,
        forall|k: int| 0 <= k < m ==> has_qid(qs, k),
    ensures
        m <= qs.len(),
{
    lemma_all_used_count(qs, m);
    lemma_count_ids_le_len(qs, m);
}

/// Two smallest unused ids are the same id.
proof fn lemma_min_unused_id_unique(qs: Seq<QueryView>, n1: int, n2: int)
    requires
        is_min_unused_id(qs, n1),
        is_min_unused_id(qs, n2),
    ensures
        n1 == n2,
{
    if n1 < n2 {
        assert(has_qid(qs, n1));
    } else if n2 < n1 {
        assert(has_qid(qs, n2));
    }
}

/// Computes the smallest unused query id; it never exceeds the number of
/// queries, because `len` ids cannot cover all of `0..=len`.
fn next_query_id(qs: &Vec<Query>) -> (id: u64)
    requires
        wf_queries(qviews(qs@)),
    ensures
        is_min_unused_id(qviews(qs@), id as int),
        id as int == spec_new_query_id(qviews(qs@)),
        id <= qs@.len(),
{
    let ghost qv = qviews(qs@);
    let len = qs.len();
    let mut n: usize = 0;
    loop
        invariant
            wf_queries(qv),
            qv.len() == qs@.len(),
            len == qs@.len(),
            n <= len,
            forall|k: int| 0 <= k < n ==> has_qid(qv, k),
        decreases qs@.len() - n,
    {
        match find_query(qs, n as u64) {
            None => {
                proof {
                    assert(is_min_unused_id(qv, n as int));
                    lemma_min_unused_id_unique(qv, n as int, spec_new_query_id(qv));
                }
                return n as u64;
            },
            Some(j) => {
                proof {
                    assert(has_qid(qv, n as int));
                    assert(forall|k: int| 0 <= k < n + 1 ==> has_qid(qv, k));
                    lemma_all_used_len(qv, n as int + 1);
                }
                n = n + 1;
            },
        }
    }
}

/// A smallest unused id always exists and is what `spec_new_query_id`
/// denotes.
pub proof fn lemma_min_unused_id_exists(qs: Seq<QueryView>)
    requires
        wf_queries(qs),
    ensures
        is_min_unused_id(qs, spec_new_query_id(qs)),
        0 <= spec_new_query_id(qs) <= qs.len(),
{
    lemma_exists_unused_upto(qs, qs.len() as int);
    if forall|k: int| 0 <= k <= qs.len() ==> has_qid(qs, k) {
        assert(forall|k: int| 0 <= k < qs.len() + 1 ==> has_qid(qs, k));
        lemma_all_used_len(qs, qs.len() as int + 1);
    } else {
        let u = choose|u: int| is_min_unused_id(qs, u) && u <= qs.len();
        assert(is_min_unused_id(qs, u));
        let n = spec_new_query_id(qs);
        assert(is_min_unused_id(qs, n));
        lemma_min_unused_id_unique(qs, n, u);
    }
}

proof fn lemma_exists_unused_upto(qs: Seq<QueryView>, n: int)
    requires
        wf_queries(qs),
        0 <= n,
    ensures
        (exists|u: int| is_min_unused_id(qs, u) && u <= n) || (forall|k: int|
            0 <= k <= n ==> has_qid(qs, k)),
    decreases n,
{
    if n == 0 {
        if !has_qid(qs, 0) {
            assert(is_min_unused_id(qs, 0));
        }
    } else {
        lemma_exists_unused_upto(qs, n - 1);
        if exists|u: int| is_min_unused_id(qs, u) && u <= n - 1 {
        } else {
            if !has_qid(qs, n) {
                assert(is_min_unused_id(qs, n));
            }
        }
    }
}

/// Finds the position of a query with the given text.
fn find_query_text(qs: &Vec<Query>, text: &str) -> (r: Option<usize>)
    ensures
        match r {
            Some(j) => j < qs@.len() && qviews(qs@)[j as int].text == text@,
            None => !has_qtext(qviews(qs@), text@),
        },
{
    let mut j: usize = 0;
    while j < qs.len()
        invariant
            j <= qs@.len(),
            forall|k: int| 0 <= k < j ==> (#[trigger] qviews(qs@)[k]).text != text@,
        decreases qs@.len() - j,
    {
        if crate::text::str_eq(qs[j].text.as_str(), text) {
            return Some(j);
        }
        j += 1;
    }
    None
}

/// Copies a query vector element by element.
fn clone_queries(src: &Vec<Query>) -> (r: Vec<Query>)
    ensures
        qviews(r@) == qviews(src@),
{
    let ghost qs = qviews(src@);
    let mut r: Vec<Query> = Vec::new();
    let mut j: usize = 0;
    proof {
        assert(qviews(r@) =~= qs.subrange(0, 0));
    }
    while j < src.len()
        invariant
            j <= src@.len(),
            qs == qviews(src@),
            qviews(r@) == qs.subrange(0, j as int),
        decreases src@.len() - j,
    {
        let ghost r0 = r@;
        r.push(
            Query {
                id: src[j].id,
                text: src[j].text.clone(),
                last_executed_at: src[j].last_executed_at,
            },
        );
        proof {
            assert(qviews(r@) =~= qviews(r0).push(r@.last()@));
            assert(r@.last()@ == qs[j as int]);
            assert(qviews(r@) =~= qs.subrange(0, j as int + 1));
        }
        j += 1;
    }
    proof {
        assert(qs.subrange(0, qs.len() as int) =~= qs);
    }
    r
}

/// The store after registering a new subscriber.
pub open spec fn spec_add_subscriber(
    s: Seq<SubscriberView>,
    sid: int,
    name: Seq<char>,
) -> Seq<SubscriberView> {
    s.push(
        SubscriberView { subscriber_id: sid, display_name: name, queries: Seq::empty() },
    )
}

/// Why `addQuery(sid, text)` is rejected, or `None` when it goes through.
pub open spec fn spec_add_query_err(
    s: Seq<SubscriberView>,
    sid: int,
    text: Seq<char>,
) -> Option<StoreError> {
    if !has_sub(s, sid) {
        Some(StoreError::StaleReference)
    } else if text.len() == 0 {
        Some(StoreError::EmptyQueryText)
    } else if has_qtext(s[sub_at(s, sid)].queries, text) {
        Some(StoreError::DuplicateQuery)
    } else {
        None
    }
}

/// The store after a successful `addQuery(sid, text)`: the subscriber gains
/// one query under the smallest unused id, timestamped far in the past.
pub open spec fn spec_add_query_ok(
    s: Seq<SubscriberView>,
    sid: int,
    text: Seq<char>,
) -> Seq<SubscriberView> {
    let i = sub_at(s, sid);
    let qs = s[i].queries;
    s.update(
        i,
        SubscriberView {
            queries: qs.push(
                QueryView {
                    id: spec_new_query_id(qs),
                    text: text,
                    last_executed_at: INITIAL_LAST_EXECUTED_AT as int,
                },
            ),
            ..s[i]
        },
    )
}

/// The store after `recordSuccess(sid, qid, t)`: the one matching query's
/// timestamp becomes `t`; a stale reference leaves the store unchanged.
pub open spec fn spec_record_success(
    s: Seq<SubscriberView>,
    sid: int,
    qid: int,
    t: int,
) -> Seq<SubscriberView> {
    if has_sub(s, sid) {
        let i = sub_at(s, sid);
        if has_qid(s[i].queries, qid) {
            let j = qid_at(s[i].queries, qid);
            let q = s[i].queries[j];
            s.update(
                i,
                SubscriberView {
                    queries: s[i].queries.update(j, QueryView { last_executed_at: t, ..q }),
                    ..s[i]
                },
            )
        } else {
            s
        }
    } else {
        s
    }
}

/// Finds the position of a query id in a query vector.
fn find_query(qs: &Vec<Query>, query_id: u64) -> (r: Option<usize>)
    ensures
        match r {
            Some(j) => j < qs@.len() && qviews(qs@)[j as int].id == query_id as int,
            None => !has_qid(qviews(qs@), query_id as int),
        },
{
    let mut j: usize = 0;
    while j < qs.len()
        invariant
            j <= qs@.len(),
            forall|k: int| 0 <= k < j ==> (#[trigger] qviews(qs@)[k]).id != query_id as int,
        decreases qs@.len() - j,
    {
        if qs[j].id == query_id {
            return Some(j);
        }
        j += 1;
    }
    None
}

/// Holds the query sets of all subscribers; the scheduler and the command
/// interface mutate it only through the operations below.
pub struct QueryStore {
    subscribers: Vec<Subscriber>,
}

impl View for QueryStore {
    type V = Seq<SubscriberView>;

    closed spec fn view(&self) -> Seq<SubscriberView> {
        self.subscribers@.map_values(|s: Subscriber| s@)
    }
}

impl QueryStore {
    /// The store's invariant: unique subscriber ids, unique query ids and
    /// texts per subscriber.
    pub open spec fn wf(&self) -> bool {
        wf_store(self@)
    }

    /// Creates an empty store.
    pub fn new() -> (r: QueryStore)
        ensures
            r.wf(),
            r@ == Seq::<SubscriberView>::empty(),
    {
        let r = QueryStore { subscribers: Vec::new() };
        proof {
            assert(r@ =~= Seq::<SubscriberView>::empty());
        }
        r
    }

    /// Finds the position of a subscriber id in the store.
    fn find_subscriber(&self, subscriber_id: i64) -> (r: Option<usize>)
        ensures
            match r {
                Some(i) => i < self@.len() && (#[trigger] self@[i as int]).subscriber_id
                    == subscriber_id as int,
                None => !has_sub(self@, subscriber_id as int),
            },
    {
        let mut i: usize = 0;
        while i < self.subscribers.len()
            invariant
                i <= self.subscribers@.len(),
                forall|k: int|
                    0 <= k < i ==> (#[trigger] self@[k]).subscriber_id != subscriber_id as int,
            decreases self.subscribers@.len() - i,
        {
            if self.subscribers[i].subscriber_id == subscriber_id {
                return Some(i);
            }
            i += 1;
        }
        None
    }

    /// Sets the matched query's `lastExecutedAt` to `completed_at`; a query
    /// or subscriber that no longer exists makes this a harmless no-op, so a
    /// success report racing a concurrent removal cannot fail.
    pub fn record_success(
        &mut self,
        subscriber_id: i64,
        query_id: u64,
        completed_at: i64,
    ) -> (updated: bool)
        requires
            old(self).wf(),
        ensures
            final(self).wf(),
            final(self)@ == spec_record_success(
                old(self)@,
                subscriber_id as int,
                query_id as int,
                completed_at as int,
            ),
            updated == (has_sub(old(self)@, subscriber_id as int) && has_qid(
                old(self)@[sub_at(old(self)@, subscriber_id as int)].queries,
                query_id as int,
            )),
    {
        let ghost s = old(self)@;
        let ghost sid = subscriber_id as int;
        let ghost qid = query_id as int;
        match self.find_subscriber(subscriber_id) {
            None => {
                false
            },
            Some(i) => {
                proof {
                    assert(has_sub(s, sid));
                    lemma_sub_at_unique(s, sid, i as int);
                }
                match find_query(&self.subscribers[i].queries, query_id) {
                    None => {
                        false
                    },
                    Some(j) => {
                        proof {
                            assert(has_qid(s[i as int].queries, qid));
                            lemma_qid_at_unique(s[i as int].queries, qid, j as int);
                        }
                        self.subscribers[i].queries[j].last_executed_at = completed_at;
                        proof {
                            let t = completed_at as int;
                            let i_ = i as int;
                            let j_ = j as int;
                            let r = spec_record_success(s, sid, qid, t);
                            let subs0 = old(self).subscribers@;
                            let subs1 = self.subscribers@;
                            assert(subs1 == subs0.update(i_, subs1[i_]));
                            assert(subs1[i_].queries@ == subs0[i_].queries@.update(
                                j_,
                                subs1[i_].queries@[j_],
                            ));
                            assert(subs1[i_].queries@[j_]@ == QueryView {
                                last_executed_at: t,
                                ..s[i_].queries[j_]
                            });
                            assert(subs1[i_]@.queries =~= r[i_].queries);
                            assert(self@ =~~= r);
                            lemma_record_success_wf(s, sid, qid, t);
                        }
                        true
                    },
                }
            },
        }
    }
    /// Selects every query whose cooldown has elapsed at `now`, across all
    /// subscribers.  Reading never mutates the store, so two calls at the
    /// same instant select the same tasks.
    pub fn list_due_queries(&self, now: i64, cooldown: i64) -> (tasks: Vec<SearchTask>)
        ensures
            tviews(tasks@) == due_tasks(self@, now as int, cooldown as int),
    {
        let ghost s = self@;
        let ghost now_ = now as int;
        let ghost cd = cooldown as int;
        let mut tasks: Vec<SearchTask> = Vec::new();
        let mut i: usize = 0;
        proof {
            assert(tviews(tasks@) =~= due_tasks(s.subrange(0, 0), now_, cd));
        }
        while i < self.subscribers.len()
            invariant
                i <= s.len(),
                s.len() == self.subscribers@.len(),
                tviews(tasks@) == due_tasks(s.subrange(0, i as int), now_, cd),
            decreases s.len() - i,
        {
            let sub = &self.subscribers[i];
            let qlen = sub.queries.len();
            let mut j: usize = 0;
            proof {
                assert(tviews(tasks@) + due_tasks_of(
                    s[i as int].queries.subrange(0, 0),
                    s[i as int].subscriber_id,
                    now_,
                    cd,
                ) =~= tviews(tasks@));
            }
            while j < qlen
                invariant
                    i < s.len(),
                    s.len() == self.subscribers@.len(),
                    j <= qlen,
                    qlen == s[i as int].queries.len(),
                    sub == self.subscribers@[i as int],
                    tviews(tasks@) == due_tasks(s.subrange(0, i as int), now_, cd)
                        + due_tasks_of(
                        s[i as int].queries.subrange(0, j as int),
                        s[i as int].subscriber_id,
                        now_,
                        cd,
                    ),
                decreases qlen - j,
            {
                let ghost qs = s[i as int].queries;
                let q = &sub.queries[j];
                proof {
                    assert(q@ == qs[j as int]);
                    assert(qs.subrange(0, j as int + 1).drop_last() =~= qs.subrange(
                        0,
                        j as int,
                    ));
                    assert(qs.subrange(0, j as int + 1).last() == qs[j as int]);
                }
                if (now as i128) - (q.last_executed_at as i128) >= (cooldown as i128) {
                    let ghost tasks0 = tasks@;
                    tasks.push(
                        SearchTask {
                            subscriber_id: sub.subscriber_id,
                            query_id: q.id,
                            query_text: q.text.clone(),
                            due_at: now,
                        },
                    );
                    proof {
                        assert(due(qs[j as int], now_, cd));
                        assert(tasks@.last()@ == task_of(
                            s[i as int].subscriber_id,
                            qs[j as int],
                            now_,
                        ));
                        assert(tviews(tasks@) =~= tviews(tasks0).push(tasks@.last()@));
                        assert(tviews(tasks@) =~= due_tasks(s.subrange(0, i as int), now_, cd)
                            + due_tasks_of(
                            qs.subrange(0, j as int + 1),
                            s[i as int].subscriber_id,
                            now_,
                            cd,
                        ));
                    }
                } else {
                    proof {
                        assert(!due(qs[j as int], now_, cd));
                        assert(tviews(tasks@) =~= due_tasks(s.subrange(0, i as int), now_, cd)
                            + due_tasks_of(
                            qs.subrange(0, j as int + 1),
                            s[i as int].subscriber_id,
                            now_,
                            cd,
                        ));
                    }
                }
                j += 1;
            }
            proof {
                assert(s[i as int].queries.subrange(0, qlen as int) =~= s[i as int].queries);
                assert(s.subrange(0, i as int + 1).drop_last() =~= s.subrange(0, i as int));
                assert(s.subrange(0, i as int + 1).last() == s[i as int]);
                assert(tviews(tasks@) =~= due_tasks(s.subrange(0, i as int + 1), now_, cd));
            }
            i += 1;
        }
        proof {
            assert(s.subrange(0, s.len() as int) =~= s);
        }
        tasks
    }

    /// A copy of one subscriber's queries, for listing; the store itself
    /// stays encapsulated.
    pub fn queries_snapshot(&self, subscriber_id: i64) -> (r: Option<Vec<Query>>)
        requires
            self.wf(),
        ensures
            match r {
                Some(qs) => has_sub(self@, subscriber_id as int) && qviews(qs@)
                    == self@[sub_at(self@, subscriber_id as int)].queries,
                None => !has_sub(self@, subscriber_id as int),
            },
    {
        match self.find_subscriber(subscriber_id) {
            None => None,
            Some(i) => {
                proof {
                    lemma_sub_at_unique(self@, subscriber_id as int, i as int);
                }
                Some(clone_queries(&self.subscribers[i].queries))
            },
        }
    }

    /// A copy of the whole store, for a durability adapter to persist.
    pub fn subscribers_snapshot(&self) -> (r: Vec<Subscriber>)
        ensures
            r@.map_values(|s: Subscriber| s@) == self@,
    {
        let mut r: Vec<Subscriber> = Vec::new();
        let mut i: usize = 0;
        proof {
            assert(r@.map_values(|s: Subscriber| s@) =~= self@.subrange(0, 0));
        }
        while i < self.subscribers.len()
            invariant
                i <= self@.len(),
                self@.len() == self.subscribers@.len(),
                r@.map_values(|s: Subscriber| s@) == self@.subrange(0, i as int),
            decreases self@.len() - i,
        {
            let src = &self.subscribers[i];
            let ghost r0 = r@;
            r.push(
                Subscriber {
                    subscriber_id: src.subscriber_id,
                    display_name: src.display_name.clone(),
                    queries: clone_queries(&src.queries),
                },
            );
            proof {
                assert(r@.map_values(|s: Subscriber| s@) =~= r0.map_values(
                    |s: Subscriber| s@,
                ).push(r@.last()@));
                assert(r@.last()@ == self@[i as int]);
                assert(r@.map_values(|s: Subscriber| s@) =~= self@.subrange(0, i as int + 1));
            }
            i += 1;
        }
        proof {
            assert(self@.subrange(0, self@.len() as int) =~= self@);
        }
        r
    }

    /// Restores one persisted query exactly as stored, for a durability
    /// adapter that reloads the store.  Refused — changing nothing — when
    /// the subscriber is unknown, the text is empty, or the id or text is
    /// already taken.
    pub fn insert_query(&mut self, subscriber_id: i64, query: Query) -> (inserted: bool)
        requires
            old(self).wf(),
        ensures
            final(self).wf(),
            ({
                let s = old(self)@;
                let sid = subscriber_id as int;
                if has_sub(s, sid) && query@.text.len() > 0 && !has_qid(
                    s[sub_at(s, sid)].queries,
                    query@.id,
                ) && !has_qtext(s[sub_at(s, sid)].queries, query@.text) {
                    inserted && final(self)@ == s.update(
                        sub_at(s, sid),
                        SubscriberView {
                            queries: s[sub_at(s, sid)].queries.push(query@),
                            ..s[sub_at(s, sid)]
                        },
                    )
                } else {
                    !inserted && final(self)@ == s
                }
            }),
    {
        let ghost s = old(self)@;
        let ghost sid = subscriber_id as int;
        match self.find_subscriber(subscriber_id) {
            None => false,
            Some(i) => {
                proof {
                    lemma_sub_at_unique(s, sid, i as int);
                }
                if query.text.as_str().unicode_len() == 0 {
                    return false;
                }
                if find_query(&self.subscribers[i].queries, query.id).is_some() {
                    proof {
                        assert(has_qid(s[i as int].queries, query@.id));
                    }
                    return false;
                }
                if find_query_text(&self.subscribers[i].queries, query.text.as_str()).is_some() {
                    proof {
                        assert(has_qtext(s[i as int].queries, query@.text));
                    }
                    return false;
                }
                let ghost qv = query@;
                self.subscribers[i].queries.push(query);
                proof {
                    let i_ = i as int;
                    let r_ = s.update(
                        i_,
                        SubscriberView { queries: s[i_].queries.push(qv), ..s[i_] },
                    );
                    assert(self.subscribers@ == old(self).subscribers@.update(
                        i_,
                        self.subscribers@[i_],
                    ));
                    assert(self.subscribers@[i_].queries@ == old(
                        self,
                    ).subscribers@[i_].queries@.push(self.subscribers@[i_].queries@.last()));
                    assert(self@[i_].queries =~= r_[i_].queries);
                    assert(self@ =~~= r_);
                    assert(wf_store(self@)) by {
                        let nq = self@[i_].queries;
                        let oq = s[i_].queries;
                        assert forall|x: int, y: int| 0 <= x < y < nq.len() implies (
                        #[trigger] nq[x]).id != (#[trigger] nq[y]).id && nq[x].text
                            != nq[y].text by {
                            if y < nq.len() - 1 {
                                assert(oq[x].id != oq[y].id && oq[x].text != oq[y].text);
                            } else {
                                assert(nq[x] == oq[x]);
                                if oq[x].id == qv.id {
                                    assert(has_qid(oq, qv.id));
                                }
                                if oq[x].text == qv.text {
                                    assert(has_qtext(oq, qv.text));
                                }
                            }
                        }
                        assert(forall|k: int|
                            0 <= k < s.len() && k != i_ ==> self@[k] == s[k]);
                    }
                }
                true
            },
        }
    }

    /// Registers a subscriber on first contact; an already known id is left
    /// untouched.
    pub fn add_subscriber(&mut self, subscriber_id: i64, display_name: &str) -> (created: bool)
        requires
            old(self).wf(),
        ensures
            final(self).wf(),
            created == !has_sub(old(self)@, subscriber_id as int),
            created ==> final(self)@ == spec_add_subscriber(
                old(self)@,
                subscriber_id as int,
                display_name@,
            ),
            !created ==> final(self)@ == old(self)@,
    {
        let ghost s = old(self)@;
        let ghost sid = subscriber_id as int;
        match self.find_subscriber(subscriber_id) {
            Some(_) => false,
            None => {
                self.subscribers.push(
                    Subscriber {
                        subscriber_id,
                        display_name: display_name.to_owned(),
                        queries: Vec::new(),
                    },
                );
                proof {
                    assert(qviews(Seq::<Query>::empty()) =~= Seq::<QueryView>::empty());
                    assert(self.subscribers@.last()@ == SubscriberView {
                        subscriber_id: sid,
                        display_name: display_name@,
                        queries: Seq::empty(),
                    });
                    assert(self@ =~~= spec_add_subscriber(s, sid, display_name@));
                    assert(wf_store(self@)) by {
                        assert(forall|k: int|
                            0 <= k < s.len() ==> self@[k] == s[k]);
                        assert(wf_queries(self@[s.len() as int].queries));
                    }
                }
                true
            },
        }
    }

    /// Adds a query for a subscriber under the smallest unused id.  Rejects
    /// an empty text, a text the subscriber already watches, and an unknown
    /// subscriber; a rejection leaves the store unchanged.
    pub fn add_query(&mut self, subscriber_id: i64, text: &str) -> (r: Result<u64, StoreError>)
        requires
            old(self).wf(),
        ensures
            final(self).wf(),
            ({
                let s = old(self)@;
                let sid = subscriber_id as int;
                match spec_add_query_err(s, sid, text@) {
                    Some(e) => r == Err::<u64, StoreError>(e) && final(self)@ == s,
                    None => ({
                        &&& r matches Ok(id) && id as int == spec_new_query_id(
                            s[sub_at(s, sid)].queries,
                        )
                        &&& final(self)@ == spec_add_query_ok(s, sid, text@)
                    }),
                }
            }),
    {
        let ghost s = old(self)@;
        let ghost sid = subscriber_id as int;
        match self.find_subscriber(subscriber_id) {
            None => Err(StoreError::StaleReference),
            Some(i) => {
                proof {
                    lemma_sub_at_unique(s, sid, i as int);
                }
                if text.unicode_len() == 0 {
                    Err(StoreError::EmptyQueryText)
                } else {
                    match find_query_text(&self.subscribers[i].queries, text) {
                        Some(_) => {
                            proof {
                                assert(has_qtext(s[i as int].queries, text@));
                            }
                            Err(StoreError::DuplicateQuery)
                        },
                        None => {
                            let id = next_query_id(&self.subscribers[i].queries);
                            self.subscribers[i].queries.push(
                                Query {
                                    id,
                                    text: text.to_owned(),
                                    last_executed_at: INITIAL_LAST_EXECUTED_AT,
                                },
                            );
                            proof {
                                let i_ = i as int;
                                let r_ = spec_add_query_ok(s, sid, text@);
                                let subs0 = old(self).subscribers@;
                                let subs1 = self.subscribers@;
                                assert(subs1 == subs0.update(i_, subs1[i_]));
                                assert(subs1[i_].queries@ == subs0[i_].queries@.push(
                                    subs1[i_].queries@.last(),
                                ));
                                assert(subs1[i_]@.queries =~= r_[i_].queries);
                                assert(self@ =~~= r_);
                                assert(wf_store(self@)) by {
                                    let nq = self@[i_].queries;
                                    let oq = s[i_].queries;
                                    assert(is_min_unused_id(oq, id as int));
                                    assert forall|x: int, y: int|
                                        0 <= x < y < nq.len() implies nq[x].id != nq[y].id
                                        && nq[x].text != nq[y].text by {
                                        if y < nq.len() - 1 {
                                            assert(oq[x].id != oq[y].id && oq[x].text
                                                != oq[y].text);
                                        } else {
                                            assert(nq[x] == oq[x]);
                                            if oq[x].id == id as int {
                                                assert(has_qid(oq, id as int));
                                            }
                                            if oq[x].text == text@ {
                                                assert(has_qtext(oq, text@));
                                            }
                                        }
                                    }
                                    assert(forall|k: int|
                                        0 <= k < s.len() && k != i_ ==> self@[k] == s[k]);
                                }
                            }
                            Ok(id)
                        },
                    }
                }
            },
        }
    }

    /// Removes one query and hands it back; a stale target is a no-op and
    /// returns nothing.
    pub fn remove_query(&mut self, subscriber_id: i64, query_id: u64) -> (removed: Option<Query>)
        requires
            old(self).wf(),
        ensures
            final(self).wf(),
            final(self)@ == spec_remove_query(
                old(self)@,
                subscriber_id as int,
                query_id as int,
            ),
            ({
                let s = old(self)@;
                let sid = subscriber_id as int;
                let qid = query_id as int;
                match removed {
                    Some(q) => has_sub(s, sid) && has_qid(s[sub_at(s, sid)].queries, qid)
                        && q@ == s[sub_at(s, sid)].queries[qid_at(
                        s[sub_at(s, sid)].queries,
                        qid,
                    )],
                    None => !(has_sub(s, sid) && has_qid(s[sub_at(s, sid)].queries, qid)),
                }
            }),
    {
        let ghost s = old(self)@;
        let ghost sid = subscriber_id as int;
        let ghost qid = query_id as int;
        match self.find_subscriber(subscriber_id) {
            None => None,
            Some(i) => {
                proof {
                    lemma_sub_at_unique(s, sid, i as int);
                }
                match find_query(&self.subscribers[i].queries, query_id) {
                    None => None,
                    Some(j) => {
                        proof {
                            lemma_qid_at_unique(s[i as int].queries, qid, j as int);
                        }
                        let q = self.subscribers[i].queries.remove(j);
                        proof {
                            let i_ = i as int;
                            let j_ = j as int;
                            let r_ = spec_remove_query(s, sid, qid);
                            assert(self.subscribers@ == old(self).subscribers@.update(
                                i_,
                                self.subscribers@[i_],
                            ));
                            assert(self.subscribers@[i_].queries@ == old(
                                self,
                            ).subscribers@[i_].queries@.remove(j_));
                            assert(self@[i_].queries =~= r_[i_].queries);
                            assert(self@ =~~= r_);
                            lemma_wf_queries_remove(s[i_].queries, j_);
                            assert(wf_store(self@)) by {
                                assert(forall|k: int|
                                    0 <= k < s.len() && k != i_ ==> self@[k] == s[k]);
                            }
                        }
                        Some(q)
                    },
                }
            },
        }
    }

    /// Drops every query of one subscriber; an unknown id is a no-op.
    pub fn clear_queries(&mut self, subscriber_id: i64) -> (found: bool)
        requires
            old(self).wf(),
        ensures
            final(self).wf(),
            final(self)@ == spec_clear_queries(old(self)@, subscriber_id as int),
            found == has_sub(old(self)@, subscriber_id as int),
    {
        let ghost s = old(self)@;
        let ghost sid = subscriber_id as int;
        match self.find_subscriber(subscriber_id) {
            None => false,
            Some(i) => {
                proof {
                    lemma_sub_at_unique(s, sid, i as int);
                }
                self.subscribers[i].queries.clear();
                proof {
                    let i_ = i as int;
                    let r_ = spec_clear_queries(s, sid);
                    assert(self@[i_].queries =~= r_[i_].queries);
                    assert(self@ =~~= r_);
                    assert(wf_store(self@)) by {
                        assert(forall|k: int|
                            0 <= k < s.len() && k != i_ ==> self@[k] == s[k]);
                    }
                }
                true
            },
        }
    }

    /// Unregisters a subscriber; the removal cascades to all owned queries.
    pub fn remove_subscriber(&mut self, subscriber_id: i64) -> (found: bool)
        requires
            old(self).wf(),
        ensures
            final(self).wf(),
            final(self)@ == spec_remove_subscriber(old(self)@, subscriber_id as int),
            found == has_sub(old(self)@, subscriber_id as int),
    {
        let ghost s = old(self)@;
        let ghost sid = subscriber_id as int;
        match self.find_subscriber(subscriber_id) {
            None => false,
            Some(i) => {
                proof {
                    lemma_sub_at_unique(s, sid, i as int);
                }
                let _ = self.subscribers.remove(i);
                proof {
                    let i_ = i as int;
                    assert(self@ =~~= spec_remove_subscriber(s, sid));
                    assert(wf_store(self@)) by {
                        let r = self@;
                        assert forall|x: int, y: int|
                            0 <= x < y < r.len() implies (#[trigger] r[x]).subscriber_id
                            != (#[trigger] r[y]).subscriber_id by {
                            let x0: int = if x < i_ {
                                x
                            } else {
                                x + 1
                            };
                            let y0: int = if y < i_ {
                                y
                            } else {
                                y + 1
                            };
                            assert(r[x] == s[x0] && r[y] == s[y0]);
                        }
                        assert forall|k: int| 0 <= k < r.len() implies wf_queries(
                            (#[trigger] r[k]).queries,
                        ) by {
                            let k0: int = if k < i_ {
                                k
                            } else {
                                k + 1
                            };
                            assert(r[k] == s[k0]);
                        }
                    }
                }
                true
            },
        }
    }
}

/// The store after `removeQuery(sid, qid)`; an absent target changes
/// nothing.
pub open spec fn spec_remove_query(
    s: Seq<SubscriberView>,
    sid: int,
    qid: int,
) -> Seq<SubscriberView> {
    if has_sub(s, sid) && has_qid(s[sub_at(s, sid)].queries, qid) {
        let i = sub_at(s, sid);
        let j = qid_at(s[i].queries, qid);
        s.update(i, SubscriberView { queries: s[i].queries.remove(j), ..s[i] })
    } else {
        s
    }
}

/// The query a `removeQuery(sid, qid)` takes out, or `None` for a stale
/// target.
pub open spec fn spec_removed_query(
    s: Seq<SubscriberView>,
    sid: int,
    qid: int,
) -> Option<QueryView> {
    if has_sub(s, sid) && has_qid(s[sub_at(s, sid)].queries, qid) {
        let qs = s[sub_at(s, sid)].queries;
        Some(qs[qid_at(qs, qid)])
    } else {
        None
    }
}

/// The store after removing the listed query ids one by one, in order, and
/// what each removal took out.
pub open spec fn spec_remove_many(
    s: Seq<SubscriberView>,
    sid: int,
    ids: Seq<int>,
) -> (Seq<SubscriberView>, Seq<Option<QueryView>>)
    decreases ids.len(),
{
    if ids.len() == 0 {
        (s, Seq::empty())
    } else {
        let removed = spec_removed_query(s, sid, ids[0]);
        let rest = spec_remove_many(spec_remove_query(s, sid, ids[0]), sid, ids.drop_first());
        (rest.0, seq![removed] + rest.1)
    }
}

/// The store after `clearQueries(sid)`; an unknown subscriber changes
/// nothing.
pub open spec fn spec_clear_queries(s: Seq<SubscriberView>, sid: int) -> Seq<SubscriberView> {
    if has_sub(s, sid) {
        let i = sub_at(s, sid);
        s.update(i, SubscriberView { queries: Seq::empty(), ..s[i] })
    } else {
        s
    }
}

/// The store after `removeSubscriber(sid)`: the account and all queries it
/// owns go away together; an unknown id changes nothing.
pub open spec fn spec_remove_subscriber(s: Seq<SubscriberView>, sid: int) -> Seq<SubscriberView> {
    if has_sub(s, sid) {
        s.remove(sub_at(s, sid))
    } else {
        s
    }
}

/// Removing one query keeps the remaining ids and texts unique.
proof fn lemma_wf_queries_remove(qs: Seq<QueryView>, j: int)
    requires
        wf_queries(qs),
        0 <= j < qs.len(),
    ensures
        wf_queries(qs.remove(j)),
{
    let r = qs.remove(j);
    assert forall|x: int, y: int| 0 <= x < y < r.len() implies (#[trigger] r[x]).id
        != (#[trigger] r[y]).id && r[x].text != r[y].text by {
        let x0: int = if x < j {
            x
        } else {
            x + 1
        };
        let y0: int = if y < j {
            y
        } else {
            y + 1
        };
        assert(r[x] == qs[x0]);
        assert(r[y] == qs[y0]);
        assert(qs[x0].id != qs[y0].id && qs[x0].text != qs[y0].text);
    }
}

/// With unique subscriber ids, an index holding `sid` is the one that
/// `sub_at` picks.
pub proof fn lemma_sub_at_unique(s: Seq<SubscriberView>, sid: int, i: int)
    requires
        wf_store(s),
        0 <= i < s.len(),
        s[i].subscriber_id == sid,
    ensures
        has_sub(s, sid),
        sub_at(s, sid) == i,
{
    assert(has_sub(s, sid));
    let k = sub_at(s, sid);
    assert(0 <= k < s.len() && s[k].subscriber_id == sid);
    if k < i {
        assert(s[k].subscriber_id != s[i].subscriber_id);
    } else if i < k {
        assert(s[i].subscriber_id != s[k].subscriber_id);
    }
}

/// With unique query ids, an index holding `qid` is the one that `qid_at`
/// picks.
pub proof fn lemma_qid_at_unique(qs: Seq<QueryView>, qid: int, j: int)
    requires
        wf_queries(qs),
        0 <= j < qs.len(),
        qs[j].id == qid,
    ensures
        has_qid(qs, qid),
        qid_at(qs, qid) == j,
{
    assert(has_qid(qs, qid));
    let k = qid_at(qs, qid);
    assert(0 <= k < qs.len() && qs[k].id == qid);
    if k < j {
        assert(qs[k].id != qs[j].id);
    } else if j < k {
        assert(qs[j].id != qs[k].id);
    }
}

/// The stored `lastExecutedAt` of one query, or `None` when the subscriber
/// or query does not exist.
pub open spec fn last_of(s: Seq<SubscriberView>, sid: int, qid: int) -> Option<int> {
    if has_sub(s, sid) && has_qid(s[sub_at(s, sid)].queries, qid) {
        let qs = s[sub_at(s, sid)].queries;
        Some(qs[qid_at(qs, qid)].last_executed_at)
    } else {
        None
    }
}

/// Law: recording a success touches exactly the named query's timestamp.
/// Every other query, of the same or of another subscriber, keeps its
/// `lastExecutedAt`, and the named query's becomes the completion instant.
pub proof fn lemma_record_success_exact(
    s: Seq<SubscriberView>,
    sid: int,
    qid: int,
    t: int,
    sid2: int,
    qid2: int,
)
    requires
        wf_store(s),
    ensures
        last_of(spec_record_success(s, sid, qid, t), sid2, qid2) == if sid2 == sid && qid2
            == qid && last_of(s, sid, qid) is Some {
            Some(t)
        } else {
            last_of(s, sid2, qid2)
        },
{
    let r = spec_record_success(s, sid, qid, t);
    if has_sub(s, sid) && has_qid(s[sub_at(s, sid)].queries, qid) {
        let i = sub_at(s, sid);
        let j = qid_at(s[i].queries, qid);
        lemma_record_success_wf(s, sid, qid, t);
        assert(forall|k: int|
            0 <= k < r.len() ==> (#[trigger] r[k]).subscriber_id == s[k].subscriber_id);
        if has_sub(s, sid2) {
            let k = sub_at(s, sid2);
            assert(s[k].subscriber_id == sid2);
            lemma_sub_at_unique(r, sid2, k);
            let qs = s[k].queries;
            let rqs = r[k].queries;
            assert(forall|m: int| 0 <= m < rqs.len() ==> (#[trigger] rqs[m]).id == qs[m].id);
            if has_qid(qs, qid2) {
                let m = qid_at(qs, qid2);
                assert(qs[m].id == qid2);
                lemma_qid_at_unique(rqs, qid2, m);
                if k == i && m == j {
                    assert(sid2 == sid && qid2 == qid);
                } else {
                    assert(rqs[m] == qs[m]);
                    if sid2 == sid && qid2 == qid {
                        lemma_sub_at_unique(s, sid, k);
                        lemma_qid_at_unique(qs, qid, m);
                    }
                }
            } else {
                if has_qid(rqs, qid2) {
                    let m = choose|m: int| 0 <= m < rqs.len() && rqs[m].id == qid2;
                    assert(qs[m].id == qid2);
                }
            }
        } else {
            if has_sub(r, sid2) {
                let k = choose|k: int| 0 <= k < r.len() && r[k].subscriber_id == sid2;
                assert(s[k].subscriber_id == sid2);
            }
        }
    }
}

/// Law: `lastExecutedAt` only advances: a success whose completion instant
/// is no earlier than the stored timestamp never moves it backwards.
pub proof fn lemma_record_success_advances(
    s: Seq<SubscriberView>,
    sid: int,
    qid: int,
    t: int,
)
    requires
        wf_store(s),
        last_of(s, sid, qid) is Some,
        t >= last_of(s, sid, qid)->0,
    ensures
        last_of(spec_record_success(s, sid, qid, t), sid, qid) == Some(t),
        last_of(spec_record_success(s, sid, qid, t), sid, qid)->0 >= last_of(s, sid, qid)->0,
{
    lemma_record_success_exact(s, sid, qid, t, sid, qid);
}

/// Law: adding a query never touches any existing query's `lastExecutedAt`.
pub proof fn lemma_add_query_preserves_last(
    s: Seq<SubscriberView>,
    sid: int,
    text: Seq<char>,
    sid2: int,
    qid2: int,
)
    requires
        wf_store(s),
        spec_add_query_err(s, sid, text) is None,
        last_of(s, sid2, qid2) is Some,
    ensures
        last_of(spec_add_query_ok(s, sid, text), sid2, qid2) == last_of(s, sid2, qid2),
{
    let r = spec_add_query_ok(s, sid, text);
    let i = sub_at(s, sid);
    let qs = s[i].queries;
    lemma_min_unused_id_exists(qs);
    assert(forall|k: int|
        0 <= k < r.len() ==> (#[trigger] r[k]).subscriber_id == s[k].subscriber_id);
    let k = sub_at(s, sid2);
    assert(s[k].subscriber_id == sid2);
    lemma_add_query_ok_wf(s, sid, text);
    lemma_sub_at_unique(r, sid2, k);
    let qs2 = s[k].queries;
    let rqs = r[k].queries;
    assert(forall|m: int| 0 <= m < qs2.len() ==> (#[trigger] rqs[m]) == qs2[m]);
    let m = qid_at(qs2, qid2);
    assert(qs2[m].id == qid2);
    lemma_qid_at_unique(rqs, qid2, m);
}

/// Law: removing one query never touches any other query's
/// `lastExecutedAt`, and the removed query is gone.
pub proof fn lemma_remove_query_preserves_last(
    s: Seq<SubscriberView>,
    sid: int,
    qid: int,
    sid2: int,
    qid2: int,
)
    requires
        wf_store(s),
        !(sid2 == sid && qid2 == qid),
        last_of(s, sid2, qid2) is Some,
    ensures
        last_of(spec_remove_query(s, sid, qid), sid2, qid2) == last_of(s, sid2, qid2),
{
    let r = spec_remove_query(s, sid, qid);
    if has_sub(s, sid) && has_qid(s[sub_at(s, sid)].queries, qid) {
        let i = sub_at(s, sid);
        let j = qid_at(s[i].queries, qid);
        lemma_remove_query_wf(s, sid, qid);
        assert(forall|k: int|
            0 <= k < r.len() ==> (#[trigger] r[k]).subscriber_id == s[k].subscriber_id);
        let k = sub_at(s, sid2);
        assert(s[k].subscriber_id == sid2);
        lemma_sub_at_unique(r, sid2, k);
        let qs2 = s[k].queries;
        let rqs = r[k].queries;
        let m = qid_at(qs2, qid2);
        assert(qs2[m].id == qid2);
        if k != i {
            lemma_qid_at_unique(rqs, qid2, m);
        } else {
            assert(sid2 == sid);
            assert(qs2[j].id == qid && qid2 != qid);
            assert(m != j);
            let m2: int = if m < j {
                m
            } else {
                m - 1
            };
            assert(rqs[m2] == qs2[m]);
            lemma_qid_at_unique(rqs, qid2, m2);
        }
    }
}

/// A successful `addQuery` keeps the store well formed.
pub proof fn lemma_add_query_ok_wf(s: Seq<SubscriberView>, sid: int, text: Seq<char>)
    requires
        wf_store(s),
        spec_add_query_err(s, sid, text) is None,
    ensures
        wf_store(spec_add_query_ok(s, sid, text)),
{
    let r = spec_add_query_ok(s, sid, text);
    let i = sub_at(s, sid);
    let qs = s[i].queries;
    lemma_min_unused_id_exists(qs);
    let id = spec_new_query_id(qs);
    assert forall|a: int| 0 <= a < r.len() implies wf_queries(#[trigger] r[a].queries) by {
        assert(wf_queries(s[a].queries));
        if a == i {
            let nq = r[a].queries;
            assert forall|x: int, y: int| 0 <= x < y < nq.len() implies (#[trigger] nq[x]).id
                != (#[trigger] nq[y]).id && nq[x].text != nq[y].text by {
                if y < nq.len() - 1 {
                    assert(qs[x].id != qs[y].id && qs[x].text != qs[y].text);
                } else {
                    assert(nq[x] == qs[x]);
                    if qs[x].id == id {
                        assert(has_qid(qs, id));
                    }
                    if qs[x].text == text {
                        assert(has_qtext(qs, text));
                    }
                }
            }
        }
    }
}

/// Removing a query keeps the store well formed.
pub proof fn lemma_remove_query_wf(s: Seq<SubscriberView>, sid: int, qid: int)
    requires
        wf_store(s),
    ensures
        wf_store(spec_remove_query(s, sid, qid)),
{
    if has_sub(s, sid) && has_qid(s[sub_at(s, sid)].queries, qid) {
        let i = sub_at(s, sid);
        let j = qid_at(s[i].queries, qid);
        lemma_wf_queries_remove(s[i].queries, j);
        let r = spec_remove_query(s, sid, qid);
        assert(forall|k: int| 0 <= k < r.len() && k != i ==> r[k] == s[k]);
    }
}

/// Law: the very first query a subscriber adds gets id zero.
pub proof fn lemma_first_query_id_zero(qs: Seq<QueryView>)
    requires
        qs.len() == 0,
    ensures
        spec_new_query_id(qs) == 0,
{
    assert(!has_qid(qs, 0));
    assert(is_min_unused_id(qs, 0));
    lemma_min_unused_id_unique(qs, spec_new_query_id(qs), 0);
}

/// Law: selecting due queries is deterministic and read-only, so two
/// selections at the same instant with no intervening mutation agree.
pub proof fn lemma_list_due_idempotent(
    s1: Seq<SubscriberView>,
    s2: Seq<SubscriberView>,
    now: int,
    cooldown: int,
)
    requires
        s1 == s2,
    ensures
        due_tasks(s1, now, cooldown) == due_tasks(s2, now, cooldown),
{
}

proof fn lemma_due_tasks_of_complete(
    qs: Seq<QueryView>,
    sid: int,
    now: int,
    cooldown: int,
    j: int,
)
    requires
        0 <= j < qs.len(),
        due(qs[j], now, cooldown),
    ensures
        due_tasks_of(qs, sid, now, cooldown).contains(task_of(sid, qs[j], now)),
    decreases qs.len(),
{
    let r = due_tasks_of(qs, sid, now, cooldown);
    if j == qs.len() - 1 {
        assert(r[r.len() - 1] == task_of(sid, qs[j], now));
        assert(r.contains(task_of(sid, qs[j], now)));
    } else {
        let prefix = qs.drop_last();
        lemma_due_tasks_of_complete(prefix, sid, now, cooldown, j);
        let p = due_tasks_of(prefix, sid, now, cooldown);
        let k = choose|k: int| 0 <= k < p.len() && p[k] == task_of(sid, prefix[j], now);
        assert(r[k] == task_of(sid, qs[j], now));
        assert(r.contains(task_of(sid, qs[j], now)));
    }
}

/// Law: every stored query whose cooldown has elapsed shows up in the due
/// selection.
pub proof fn lemma_due_tasks_complete(
    s: Seq<SubscriberView>,
    now: int,
    cooldown: int,
    i: int,
    j: int,
)
    requires
        0 <= i < s.len(),
        0 <= j < s[i].queries.len(),
        due(s[i].queries[j], now, cooldown),
    ensures
        due_tasks(s, now, cooldown).contains(
            task_of(s[i].subscriber_id, s[i].queries[j], now),
        ),
    decreases s.len(),
{
    let r = due_tasks(s, now, cooldown);
    let t = task_of(s[i].subscriber_id, s[i].queries[j], now);
    if i == s.len() - 1 {
        lemma_due_tasks_of_complete(s[i].queries, s[i].subscriber_id, now, cooldown, j);
        let q = due_tasks_of(s[i].queries, s[i].subscriber_id, now, cooldown);
        let k = choose|k: int| 0 <= k < q.len() && q[k] == t;
        let p = due_tasks(s.drop_last(), now, cooldown);
        assert(r[p.len() + k] == t);
        assert(r.contains(t));
    } else {
        let prefix = s.drop_last();
        lemma_due_tasks_complete(prefix, now, cooldown, i, j);
        let p = due_tasks(prefix, now, cooldown);
        let k = choose|k: int| 0 <= k < p.len() && p[k] == t;
        assert(r[k] == t);
        assert(r.contains(t));
    }
}

proof fn lemma_due_tasks_of_sound(
    qs: Seq<QueryView>,
    sid: int,
    now: int,
    cooldown: int,
    t: TaskView,
)
    requires
        due_tasks_of(qs, sid, now, cooldown).contains(t),
    ensures
        exists|j: int|
            0 <= j < qs.len() && due(#[trigger] qs[j], now, cooldown) && t == task_of(
                sid,
                qs[j],
                now,
            ),
    decreases qs.len(),
{
    let r = due_tasks_of(qs, sid, now, cooldown);
    let p = due_tasks_of(qs.drop_last(), sid, now, cooldown);
    let k = choose|k: int| 0 <= k < r.len() && r[k] == t;
    if k < p.len() {
        assert(p.contains(t));
        lemma_due_tasks_of_sound(qs.drop_last(), sid, now, cooldown, t);
        let j = choose|j: int|
            0 <= j < qs.drop_last().len() && due(#[trigger] qs.drop_last()[j], now, cooldown)
                && t == task_of(sid, qs.drop_last()[j], now);
        assert(qs[j] == qs.drop_last()[j]);
        assert(due(qs[j], now, cooldown) && t == task_of(sid, qs[j], now));
    } else {
        assert(t == task_of(sid, qs.last(), now));
        assert(due(qs[qs.len() - 1], now, cooldown));
    }
}

/// Law: every selected task names a stored query whose cooldown had
/// elapsed, and carries the selection instant as its completion time.
pub proof fn lemma_due_tasks_sound(
    s: Seq<SubscriberView>,
    now: int,
    cooldown: int,
    t: TaskView,
)
    requires
        due_tasks(s, now, cooldown).contains(t),
    ensures
        t.due_at == now,
        exists|i: int, j: int|
            0 <= i < s.len() && 0 <= j < (#[trigger] s[i]).queries.len() && due(
                #[trigger] s[i].queries[j],
                now,
                cooldown,
            ) && t == task_of(s[i].subscriber_id, s[i].queries[j], now),
    decreases s.len(),
{
    let r = due_tasks(s, now, cooldown);
    let p = due_tasks(s.drop_last(), now, cooldown);
    let k = choose|k: int| 0 <= k < r.len() && r[k] == t;
    if k < p.len() {
        assert(p.contains(t));
        lemma_due_tasks_sound(s.drop_last(), now, cooldown, t);
        let (i, j): (int, int) = choose|i: int, j: int|
            0 <= i < s.drop_last().len() && 0 <= j < (#[trigger] s.drop_last()[i]).queries.len()
                && due(#[trigger] s.drop_last()[i].queries[j], now, cooldown) && t == task_of(
                s.drop_last()[i].subscriber_id,
                s.drop_last()[i].queries[j],
                now,
            );
        assert(s[i] == s.drop_last()[i]);
        assert(0 <= i < s.len() && 0 <= j < s[i].queries.len() && due(
            s[i].queries[j],
            now,
            cooldown,
        ) && t == task_of(s[i].subscriber_id, s[i].queries[j], now));
    } else {
        let q = due_tasks_of(s.last().queries, s.last().subscriber_id, now, cooldown);
        assert(q[k - p.len()] == t);
        assert(q.contains(t));
        lemma_due_tasks_of_sound(s.last().queries, s.last().subscriber_id, now, cooldown, t);
        let i = s.len() - 1;
        let j = choose|j: int|
            0 <= j < s[i].queries.len() && due(#[trigger] s[i].queries[j], now, cooldown) && t
                == task_of(s[i].subscriber_id, s[i].queries[j], now);
        assert(0 <= i < s.len() && 0 <= j < s[i].queries.len() && due(
            s[i].queries[j],
            now,
            cooldown,
        ) && t == task_of(s[i].subscriber_id, s[i].queries[j], now));
    }
}

/// Law: under a non-negative cooldown, recording a selected task's
/// completion never moves its query's `lastExecutedAt` backwards: the
/// timestamp only ever advances, and only through such a success.
pub proof fn lemma_selected_task_advances(
    s: Seq<SubscriberView>,
    now: int,
    cooldown: int,
    t: TaskView,
)
    requires
        wf_store(s),
        cooldown >= 0,
        due_tasks(s, now, cooldown).contains(t),
    ensures
        last_of(s, t.subscriber_id, t.query_id) is Some,
        last_of(s, t.subscriber_id, t.query_id)->0 <= now,
        last_of(
            spec_record_success(s, t.subscriber_id, t.query_id, t.due_at),
            t.subscriber_id,
            t.query_id,
        ) == Some(now),
{
    lemma_due_tasks_sound(s, now, cooldown, t);
    let (i, j): (int, int) = choose|i: int, j: int|
        0 <= i < s.len() && 0 <= j < (#[trigger] s[i]).queries.len() && due(
            #[trigger] s[i].queries[j],
            now,
            cooldown,
        ) && t == task_of(s[i].subscriber_id, s[i].queries[j], now);
    lemma_sub_at_unique(s, t.subscriber_id, i);
    lemma_qid_at_unique(s[i].queries, t.query_id, j);
    lemma_record_success_advances(s, t.subscriber_id, t.query_id, now);
}

/// Law: a freshly added query is immediately due: as soon as the cooldown
/// is at most the time elapsed since [`INITIAL_LAST_EXECUTED_AT`], the next
/// selection contains the new query's task.
pub proof fn lemma_added_query_immediately_due(
    s: Seq<SubscriberView>,
    sid: int,
    text: Seq<char>,
    now: int,
    cooldown: int,
)
    requires
        wf_store(s),
        spec_add_query_err(s, sid, text) is None,
        now - INITIAL_LAST_EXECUTED_AT as int >= cooldown,
    ensures
        ({
            let r = spec_add_query_ok(s, sid, text);
            let id = spec_new_query_id(s[sub_at(s, sid)].queries);
            due_tasks(r, now, cooldown).contains(
                TaskView { subscriber_id: sid, query_id: id, query_text: text, due_at: now },
            )
        }),
{
    let r = spec_add_query_ok(s, sid, text);
    let i = sub_at(s, sid);
    let qs = s[i].queries;
    let id = spec_new_query_id(qs);
    let newq = QueryView { id: id, text: text, last_executed_at: INITIAL_LAST_EXECUTED_AT as int };
    assert(r[i].queries[qs.len() as int] == newq);
    assert(due(newq, now, cooldown));
    lemma_due_tasks_complete(r, now, cooldown, i, qs.len() as int);
    assert(task_of(r[i].subscriber_id, newq, now) == TaskView {
        subscriber_id: sid,
        query_id: id,
        query_text: text,
        due_at: now,
    });
}

/// `recordSuccess` only changes a timestamp, so it keeps the store well
/// formed.
pub proof fn lemma_record_success_wf(s: Seq<SubscriberView>, sid: int, qid: int, t: int)
    requires
        wf_store(s),
    ensures
        wf_store(spec_record_success(s, sid, qid, t)),
{
    let r = spec_record_success(s, sid, qid, t);
    if has_sub(s, sid) && has_qid(s[sub_at(s, sid)].queries, qid) {
        let i = sub_at(s, sid);
        let j = qid_at(s[i].queries, qid);
        assert forall|a: int| 0 <= a < r.len() implies wf_queries(#[trigger] r[a].queries) by {
            assert(wf_queries(s[a].queries));
            if a == i {
                let rq = r[a].queries;
                let sq = s[a].queries;
                assert forall|x: int, y: int| 0 <= x < y < rq.len() implies rq[x].id != rq[y].id
                    && rq[x].text != rq[y].text by {
                    assert(sq[x].id != sq[y].id && sq[x].text != sq[y].text);
                }
            }
        }
    }
}

} // verus!
