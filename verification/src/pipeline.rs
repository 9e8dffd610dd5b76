//! The two-phase assembly pipeline's bookkeeping: the render work list
//! with original positions and collision-safe cache keys, the bounded
//! render scheduler, and the merge plan that reorders completed artifacts
//! back into classification order no matter in which order the workers
//! finished.

use vstd::prelude::*;

use crate::classifier::SourceFile;
use crate::sorting::{
    insertion_sort, key_lt_of, lemma_isort_map, lemma_isort_multiset, lemma_isort_sorted,
    lemma_sorted_unique_comparable, sorted_lt, spec_isort, strict_order, OrderedByKey,
};

verus! {

/// One completed render: the file's original position and the cache key
/// its artifact was staged under.
pub struct StagedArtifact {
    /// Index of the file in the classification order.
    pub position: usize,
    /// Name of the staged artifact in the scratch cache.
    pub cache_key: String,
}

/// The mathematical content of a [`StagedArtifact`].
pub ghost struct StagedArtifactView {
    pub position: int,
    pub cache_key: Seq<char>,
}

impl View for StagedArtifact {
    type V = StagedArtifactView;

    open spec fn view(&self) -> StagedArtifactView {
        StagedArtifactView { position: self.position as int, cache_key: self.cache_key@ }
    }
}

/// The view of a staged artifact as a first-class function.
pub open spec fn sa_view_fn() -> spec_fn(StagedArtifact) -> StagedArtifactView {
    |a: StagedArtifact| a@
}

/// The views of a sequence of staged artifacts.
pub open spec fn sa_views(s: Seq<StagedArtifact>) -> Seq<StagedArtifactView> {
    s.map_values(sa_view_fn())
}

/// The merge order: strictly by original position.
pub open spec fn sav_lt() -> spec_fn(StagedArtifactView, StagedArtifactView) -> bool {
    |a: StagedArtifactView, b: StagedArtifactView| a.position < b.position
}

impl OrderedByKey for StagedArtifact {
    open spec fn key_lt_spec(&self, other: &Self) -> bool {
        self.position < other.position
    }

    fn key_lt(&self, other: &Self) -> (r: bool) {
        self.position < other.position
    }
}

/// The expansion of one path character in a cache key: separators become
/// double underscores.
pub open spec fn key_char(c: char) -> Seq<char> {
    if c == '/' || c == '\\' {
        seq!['_', '_']
    } else {
        seq![c]
    }
}

/// A path with every separator replaced by a double underscore.
pub open spec fn spec_safe_name(s: Seq<char>) -> Seq<char>
    decreases s.len(),
{
    if s.len() == 0 {
        Seq::<char>::empty()
    } else {
        spec_safe_name(s.drop_last()) + key_char(s.last())
    }
}

/// The cache key of a file: its relative path with separators replaced,
/// carrying the artifact extension.
pub open spec fn spec_cache_key(rel: Seq<char>) -> Seq<char> {
    spec_safe_name(rel) + ".pdf"@
}

/// Writes the cache key an artifact of this file is staged under.
pub fn cache_file_name(relative_path: &str) -> (r: String)
    ensures
        r@ == spec_cache_key(relative_path@),
{
    let n = relative_path.unicode_len();
    let mut out = String::new();
    let mut i: usize = 0;
    proof {
        assert(relative_path@.take(0) =~= Seq::<char>::empty());
    }
    while i < n
        invariant
            n == relative_path@.len(),
            i <= n,
            out@ == spec_safe_name(relative_path@.take(i as int)),
        decreases n - i,
    {
        let c = relative_path.get_char(i);
        if c == '/' || c == '\\' {
            out.append("__");
            proof {
                reveal_strlit("__");
                assert("__"@ =~= seq!['_', '_']);
            }
        } else {
            let piece = relative_path.substring_char(i, i + 1);
            proof {
                assert(piece@ =~= seq![relative_path@[i as int]]);
            }
            out.append(piece);
        }
        proof {
            assert(relative_path@.take(i + 1).drop_last() =~= relative_path@.take(i as int));
            assert(relative_path@.take(i + 1).last() == relative_path@[i as int]);
            assert(out@ =~= spec_safe_name(relative_path@.take(i + 1)));
        }
        i = i + 1;
    }
    proof {
        assert(relative_path@.take(n as int) =~= relative_path@);
    }
    out.append(".pdf");
    out
}

/// One entry of the render work list.
pub struct RenderTask {
    /// Index of the file in the classification order.
    pub position: usize,
    /// The file's relative path.
    pub relative_path: String,
    /// The cache key its artifact will be staged under.
    pub cache_key: String,
}

/// Plans the render phase: one task per file, carrying its original
/// position and its cache key.
pub fn plan_render_tasks(files: &Vec<SourceFile>) -> (r: Vec<RenderTask>)
    ensures
        r@.len() == files@.len(),
        forall|i: int|
            0 <= i < r@.len() ==> {
                &&& (#[trigger] r@[i]).position == i
                &&& r@[i].relative_path@ == files@[i].relative_path@
                &&& r@[i].cache_key@ == spec_cache_key(files@[i].relative_path@)
            },
{
    let n = files.len();
    let mut out: Vec<RenderTask> = Vec::new();
    let mut i: usize = 0;
    while i < n
        invariant
            n == files@.len(),
            i <= n,
            out@.len() == i,
            forall|k: int|
                0 <= k < i ==> {
                    &&& (#[trigger] out@[k]).position == k
                    &&& out@[k].relative_path@ == files@[k].relative_path@
                    &&& out@[k].cache_key@ == spec_cache_key(files@[k].relative_path@)
                },
        decreases n - i,
    {
        let cache_key = cache_file_name(files[i].relative_path.as_str());
        out.push(
            RenderTask { position: i, relative_path: files[i].relative_path.clone(), cache_key },
        );
        i = i + 1;
    }
    out
}

/// The merge plan of a set of completed renders: the same artifacts,
/// ordered by original position.
pub open spec fn spec_merge_plan(completed: Seq<StagedArtifactView>) -> Seq<StagedArtifactView> {
    spec_isort(completed, sav_lt())
}

/// No two completed renders share a position.
pub open spec fn distinct_positions(s: Seq<StagedArtifactView>) -> bool {
    forall|i: int, j: int|
        #![trigger s[i], s[j]]
        0 <= i < j < s.len() ==> s[i].position != s[j].position
}

/// Orders completed renders by their original position for the merge.
pub fn merge_order(completed: Vec<StagedArtifact>) -> (r: Vec<StagedArtifact>)
    ensures
        sa_views(r@) == spec_merge_plan(sa_views(completed@)),
{
    let ghost pre = completed@;
    let sorted = insertion_sort(completed);
    proof {
        lemma_isort_map(pre, sa_view_fn(), key_lt_of::<StagedArtifact>(), sav_lt());
        assert(sa_views(sorted@) =~= spec_merge_plan(sa_views(pre)));
    }
    sorted
}

/// The position order is a strict order.
proof fn lemma_sav_strict_order()
    ensures
        strict_order(sav_lt()),
{
}

/// Order independence of the workers: two runs whose workers completed
/// the same renders, in whatever order, merge in the identical order.
/// In particular the parallel render phase merges exactly as the fully
/// sequential one does.
pub proof fn lemma_merge_order_independent(
    a: Seq<StagedArtifactView>,
    b: Seq<StagedArtifactView>,
)
    requires
        a.to_multiset() == b.to_multiset(),
        distinct_positions(a),
    ensures
        spec_merge_plan(a) == spec_merge_plan(b),
{
    let lt = sav_lt();
    lemma_sav_strict_order();
    lemma_isort_sorted(a, lt);
    lemma_isort_sorted(b, lt);
    lemma_isort_multiset(a, lt);
    lemma_isort_multiset(b, lt);
    assert forall|x: StagedArtifactView, y: StagedArtifactView|
        spec_isort(a, lt).to_multiset().contains(x) && spec_isort(a, lt).to_multiset().contains(y)
            && x != y implies #[trigger] lt(x, y) || lt(y, x) by {
        broadcast use vstd::seq_lib::group_to_multiset_ensures;

        assert(a.to_multiset().contains(x) && a.to_multiset().contains(y));
        assert(a.contains(x) && a.contains(y));
        let i = choose|i: int| 0 <= i < a.len() && a[i] == x;
        let j = choose|j: int| 0 <= j < a.len() && a[j] == y;
        assert(a[i].position != a[j].position);
    }
    lemma_sorted_unique_comparable(spec_isort(a, lt), spec_isort(b, lt), lt);
}

/// The artifacts a run of `n` files yields when exactly the file at
/// position `k` failed: every other position, with its key, in position
/// order.
pub open spec fn expected_artifacts(
    n: int,
    k: int,
    keyf: spec_fn(int) -> Seq<char>,
) -> Seq<StagedArtifactView> {
    Seq::new(
        (n - 1) as nat,
        |i: int|
            {
                let p: int = if i < k {
                    i
                } else {
                    i + 1
                };
                StagedArtifactView { position: p, cache_key: keyf(p) }
            },
    )
}

/// Resilience of the merge: when rendering file `k` of `n` failed and
/// every other file was staged, the merge plan holds exactly the other
/// `n - 1` artifacts, still in position order.
pub proof fn lemma_merge_resilient(
    completed: Seq<StagedArtifactView>,
    n: int,
    k: int,
    keyf: spec_fn(int) -> Seq<char>,
)
    requires
        0 <= k < n,
        completed.to_multiset() == expected_artifacts(n, k, keyf).to_multiset(),
    ensures
        spec_merge_plan(completed) == expected_artifacts(n, k, keyf),
{
    let lt = sav_lt();
    let expected = expected_artifacts(n, k, keyf);
    assert(distinct_positions(expected));
    assert(sorted_lt(expected, lt));
    lemma_sav_strict_order();
    lemma_merge_order_independent(expected, completed);
    lemma_isort_sorted(expected, lt);
    lemma_isort_multiset(expected, lt);
    assert forall|x: StagedArtifactView, y: StagedArtifactView|
        spec_isort(expected, lt).to_multiset().contains(x) && spec_isort(
            expected,
            lt,
        ).to_multiset().contains(y) && x != y implies #[trigger] lt(x, y) || lt(y, x) by {
        broadcast use vstd::seq_lib::group_to_multiset_ensures;

        assert(expected.contains(x) && expected.contains(y));
        let i = choose|i: int| 0 <= i < expected.len() && expected[i] == x;
        let j = choose|j: int| 0 <= j < expected.len() && expected[j] == y;
    }
    lemma_sorted_unique_comparable(spec_isort(expected, lt), expected, lt);
}

/// The state of one planned render task.
pub enum TaskState {
    /// Not handed to a worker yet.
    Pending,
    /// Being rendered: its artifact may be held in memory right now.
    Running,
    /// Rendered and persisted to the scratch cache under this key; the
    /// in-memory copy has been released.
    Staged(String),
    /// Failed: logged as a warning and left out of the merge.
    Failed,
}

/// How many entries of the sequence are in the running state.
pub open spec fn count_running(s: Seq<TaskState>) -> int
    decreases s.len(),
{
    if s.len() == 0 {
        0
    } else {
        count_running(s.drop_last()) + if s.last() is Running {
            1int
        } else {
            0int
        }
    }
}

/// How many entries of the sequence are in the failed state.
pub open spec fn count_failed(s: Seq<TaskState>) -> int
    decreases s.len(),
{
    if s.len() == 0 {
        0
    } else {
        count_failed(s.drop_last()) + if s.last() is Failed {
            1int
        } else {
            0int
        }
    }
}

/// Counting running entries after changing one entry.
proof fn lemma_count_running_update(s: Seq<TaskState>, i: int, v: TaskState)
    requires
        0 <= i < s.len(),
    ensures
        count_running(s.update(i, v)) == count_running(s) - (if s[i] is Running {
            1int
        } else {
            0int
        }) + (if v is Running {
            1int
        } else {
            0int
        }),
    decreases s.len(),
{
    if i == s.len() - 1 {
        assert(s.update(i, v).drop_last() =~= s.drop_last());
        assert(s.update(i, v).last() == v);
    } else {
        assert(s.update(i, v).drop_last() =~= s.drop_last().update(i, v));
        assert(s.update(i, v).last() == s.last());
        lemma_count_running_update(s.drop_last(), i, v);
    }
}

/// Counting failed entries after changing one entry.
proof fn lemma_count_failed_update(s: Seq<TaskState>, i: int, v: TaskState)
    requires
        0 <= i < s.len(),
    ensures
        count_failed(s.update(i, v)) == count_failed(s) - (if s[i] is Failed {
            1int
        } else {
            0int
        }) + (if v is Failed {
            1int
        } else {
            0int
        }),
    decreases s.len(),
{
    if i == s.len() - 1 {
        assert(s.update(i, v).drop_last() =~= s.drop_last());
        assert(s.update(i, v).last() == v);
    } else {
        assert(s.update(i, v).drop_last() =~= s.drop_last().update(i, v));
        assert(s.update(i, v).last() == s.last());
        lemma_count_failed_update(s.drop_last(), i, v);
    }
}

/// The counts are bounded by the length.
proof fn lemma_count_bounds(s: Seq<TaskState>)
    ensures
        0 <= count_running(s),
        0 <= count_failed(s),
        count_running(s) + count_failed(s) <= s.len(),
    decreases s.len(),
{
    if s.len() > 0 {
        lemma_count_bounds(s.drop_last());
    }
}

/// Appending a pending entry changes no count.
proof fn lemma_count_push_pending(s: Seq<TaskState>)
    ensures
        count_running(s.push(TaskState::Pending)) == count_running(s),
        count_failed(s.push(TaskState::Pending)) == count_failed(s),
{
    assert(s.push(TaskState::Pending).drop_last() =~= s);
}

/// The bounded render scheduler.  It hands out tasks in order, never
/// allowing more than the worker limit to run — and so to hold an
/// in-memory artifact — at once, and records for each task whether its
/// artifact was staged or its failure was logged as a warning.
pub struct RenderScheduler {
    /// How many renders may run at once: the size of the worker pool.
    pub worker_limit: usize,
    /// The next task to hand out; everything before it has been started.
    pub next: usize,
    /// How many tasks are running right now.
    pub in_flight: usize,
    /// How many tasks have failed; each failure is one warning.
    pub warnings: usize,
    /// The state of every task.
    pub tasks: Vec<TaskState>,
}

impl RenderScheduler {
    /// The scheduler's invariant.
    pub open spec fn wf(self) -> bool {
        &&& self.worker_limit >= 1
        &&& self.next <= self.tasks@.len()
        &&& self.in_flight <= self.worker_limit
        &&& self.in_flight == count_running(self.tasks@)
        &&& self.warnings == count_failed(self.tasks@)
        &&& forall|i: int| self.next <= i < self.tasks@.len() ==> self.tasks@[i] is Pending
        &&& forall|i: int| 0 <= i < self.next ==> !(#[trigger] self.tasks@[i] is Pending)
    }

    /// A fresh scheduler for `total` tasks and the given worker pool
    /// size.
    pub fn new(total: usize, worker_limit: usize) -> (r: RenderScheduler)
        requires
            worker_limit >= 1,
        ensures
            r.wf(),
            r.tasks@.len() == total,
            r.next == 0,
            r.in_flight == 0,
            r.warnings == 0,
    {
        let mut tasks: Vec<TaskState> = Vec::new();
        let mut i: usize = 0;
        while i < total
            invariant
                i <= total,
                tasks@.len() == i,
                count_running(tasks@) == 0,
                count_failed(tasks@) == 0,
                forall|k: int| 0 <= k < i ==> tasks@[k] is Pending,
            decreases total - i,
        {
            let ghost before = tasks@;
            tasks.push(TaskState::Pending);
            proof {
                lemma_count_push_pending(before);
            }
            i = i + 1;
        }
        RenderScheduler { worker_limit, next: 0, in_flight: 0, warnings: 0, tasks }
    }

    /// Whether another task may be handed out right now.
    pub fn can_start(&self) -> (r: bool)
        ensures
            r == (self.next < self.tasks@.len() && self.in_flight < self.worker_limit),
    {
        self.next < self.tasks.len() && self.in_flight < self.worker_limit
    }

    /// Hands out the next task; its render now counts against the
    /// worker limit.
    pub fn start(&mut self) -> (position: usize)
        requires
            old(self).wf(),
            old(self).next < old(self).tasks@.len(),
            old(self).in_flight < old(self).worker_limit,
        ensures
            final(self).wf(),
            position == old(self).next,
            final(self).next == old(self).next + 1,
            final(self).in_flight == old(self).in_flight + 1,
            final(self).warnings == old(self).warnings,
            final(self).worker_limit == old(self).worker_limit,
            final(self).tasks@ == old(self).tasks@.update(position as int, TaskState::Running),
            final(self).in_flight <= final(self).worker_limit,
    {
        let position = self.next;
        let total = self.tasks.len();
        proof {
            assert(position < total);
            lemma_count_running_update(self.tasks@, position as int, TaskState::Running);
            lemma_count_failed_update(self.tasks@, position as int, TaskState::Running);
        }
        self.tasks.set(position, TaskState::Running);
        self.next = position + 1;
        self.in_flight = self.in_flight + 1;
        position
    }

    /// Records the outcome of a running task: staged under its cache
    /// key, or failed — which logs exactly one warning.  Either way the
    /// worker and the in-memory artifact are released.
    pub fn finish(&mut self, position: usize, outcome: Option<String>)
        requires
            old(self).wf(),
            position < old(self).tasks@.len(),
            old(self).tasks@[position as int] is Running,
        ensures
            final(self).wf(),
            final(self).next == old(self).next,
            final(self).worker_limit == old(self).worker_limit,
            final(self).in_flight == old(self).in_flight - 1,
            final(self).warnings == old(self).warnings + (if outcome is None {
                1int
            } else {
                0int
            }),
            final(self).tasks@ == old(self).tasks@.update(
                position as int,
                match outcome {
                    Some(key) => TaskState::Staged(key),
                    None => TaskState::Failed,
                },
            ),
    {
        let total = self.tasks.len();
        proof {
            lemma_count_running_lower(old(self).tasks@, position as int);
            lemma_count_bounds(old(self).tasks@);
            assert(old(self).warnings + 1 <= total);
        }
        let new_state = match outcome {
            Some(key) => TaskState::Staged(key),
            None => TaskState::Failed,
        };
        proof {
            lemma_count_running_update(self.tasks@, position as int, new_state);
            lemma_count_failed_update(self.tasks@, position as int, new_state);
        }
        let is_failed = match &new_state {
            TaskState::Failed => true,
            _ => false,
        };
        self.tasks.set(position, new_state);
        self.in_flight = self.in_flight - 1;
        if is_failed {
            self.warnings = self.warnings + 1;
        }
    }

    /// The staged artifacts in position order, ready for the merge.
    pub fn completed(&self) -> (r: Vec<StagedArtifact>)
        ensures
            sa_views(r@) == spec_staged_prefix(self.tasks@, self.tasks@.len() as int),
    {
        let n = self.tasks.len();
        let mut out: Vec<StagedArtifact> = Vec::new();
        let mut i: usize = 0;
        proof {
            assert(sa_views(out@) =~= spec_staged_prefix(self.tasks@, 0));
        }
        while i < n
            invariant
                n == self.tasks@.len(),
                i <= n,
                sa_views(out@) =~= spec_staged_prefix(self.tasks@, i as int),
            decreases n - i,
        {
            match &self.tasks[i] {
                TaskState::Staged(key) => {
                    let ghost before = sa_views(out@);
                    out.push(StagedArtifact { position: i, cache_key: key.clone() });
                    proof {
                        assert(sa_views(out@) =~= before.push(
                            StagedArtifactView {
                                position: i as int,
                                cache_key: spec_staged_key(self.tasks@[i as int]),
                            },
                        ));
                    }
                },
                _ => {},
            }
            proof {
                assert(sa_views(out@) =~= spec_staged_prefix(self.tasks@, i + 1));
            }
            i = i + 1;
        }
        out
    }
}

/// A running entry exists, so the running count is positive.
proof fn lemma_count_running_lower(s: Seq<TaskState>, i: int)
    requires
        0 <= i < s.len(),
        s[i] is Running,
    ensures
        count_running(s) >= 1,
    decreases s.len(),
{
    lemma_count_bounds(s.drop_last());
    if i < s.len() - 1 {
        lemma_count_running_lower(s.drop_last(), i);
    }
}

/// The key a staged task was staged under.
pub open spec fn spec_staged_key(t: TaskState) -> Seq<char> {
    match t {
        TaskState::Staged(key) => key@,
        _ => Seq::<char>::empty(),
    }
}

/// The staged artifacts among the first `k` tasks, in position order.
pub open spec fn spec_staged_prefix(tasks: Seq<TaskState>, k: int) -> Seq<StagedArtifactView>
    decreases k,
{
    if k <= 0 {
        Seq::<StagedArtifactView>::empty()
    } else {
        let prev = spec_staged_prefix(tasks, k - 1);
        if tasks[k - 1] is Staged {
            prev.push(
                StagedArtifactView { position: k - 1, cache_key: spec_staged_key(tasks[k - 1]) },
            )
        } else {
            prev
        }
    }
}

/// The staged artifacts come out of the scheduler ordered by position,
/// each position below `k` and none repeated.
pub proof fn lemma_staged_prefix_ordered(tasks: Seq<TaskState>, k: int)
    ensures
        sorted_lt(spec_staged_prefix(tasks, k), sav_lt()),
        distinct_positions(spec_staged_prefix(tasks, k)),
        forall|i: int|
            0 <= i < spec_staged_prefix(tasks, k).len() ==> #[trigger] spec_staged_prefix(
                tasks,
                k,
            )[i].position < k,
    decreases k,
{
    if k > 0 {
        lemma_staged_prefix_ordered(tasks, k - 1);
        let prev = spec_staged_prefix(tasks, k - 1);
        let cur = spec_staged_prefix(tasks, k);
        if tasks[k - 1] is Staged {
            assert(forall|i: int| 0 <= i < prev.len() ==> #[trigger] cur[i] == prev[i]);
            assert(cur[cur.len() - 1].position == k - 1);
        }
    }
}

/// A completion record that is already in position order — as the
/// sequential driver produces it — is its own merge plan.
pub proof fn lemma_merge_plan_of_ordered(s: Seq<StagedArtifactView>)
    requires
        sorted_lt(s, sav_lt()),
        distinct_positions(s),
    ensures
        spec_merge_plan(s) == s,
{
    let lt = sav_lt();
    lemma_sav_strict_order();
    lemma_isort_sorted(s, lt);
    lemma_isort_multiset(s, lt);
    assert forall|x: StagedArtifactView, y: StagedArtifactView|
        spec_isort(s, lt).to_multiset().contains(x) && spec_isort(s, lt).to_multiset().contains(y)
            && x != y implies #[trigger] lt(x, y) || lt(y, x) by {
        broadcast use vstd::seq_lib::group_to_multiset_ensures;

        assert(s.to_multiset().contains(x) && s.to_multiset().contains(y));
        assert(s.contains(x) && s.contains(y));
        let i = choose|i: int| 0 <= i < s.len() && s[i] == x;
        let j = choose|j: int| 0 <= j < s.len() && s[j] == y;
    }
    lemma_sorted_unique_comparable(spec_isort(s, lt), s, lt);
}

/// Memory bound of the render phase: a well-formed scheduler never has
/// more tasks running — and so never more in-memory artifacts held —
/// than the worker pool has workers, independent of how many files there
/// are.
pub proof fn lemma_bounded_workers(s: RenderScheduler)
    requires
        s.wf(),
    ensures
        s.in_flight <= s.worker_limit,
{
}

/// The worker pool size: all but one of the available cores, at least
/// one; a sequential run uses exactly one.
pub open spec fn spec_worker_count(available: int, parallel: bool) -> int {
    if !parallel {
        1
    } else if available <= 1 {
        1
    } else {
        available - 1
    }
}

/// Picks the worker pool size from the available parallelism.
pub fn worker_count(available: usize, parallel: bool) -> (r: usize)
    ensures
        r == spec_worker_count(available as int, parallel),
        r >= 1,
{
    if !parallel {
        1
    } else if available <= 1 {
        1
    } else {
        available - 1
    }
}

} // verus!
