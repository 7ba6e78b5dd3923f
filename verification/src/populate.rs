//! Bulk concurrent population of a remote tile store.
//!
//! A run walks a local tile tree (the walking itself is I/O and lives outside
//! the library), derives one destination key per file by stripping the source
//! prefix, and uploads every file under a bounded number of concurrent tasks
//! with per-task retry. `Populator` is the scheduler: a fixed number of
//! permits bounds the tasks in flight, a permit is held across a task's
//! retries and returned when the task ends (success or permanent failure),
//! and the run schedules nothing further once a task has permanently failed.

use vstd::prelude::*;

use crate::bytes::starts_with_spec;
use crate::store::ObjectStore;

verus! {

/// How often a failed upload is retried before it counts as a permanent
/// failure.
pub const MAX_RETRIES: u32 = 3;

/// Why a destination path was rejected.
#[derive(Clone, Copy, PartialEq, Eq, Structural, Debug)]
pub enum S3PathError {
    /// The path does not start with "s3://".
    MissingScheme,
    /// The path names more than a bucket: "s3://bucket" is required.
    NotBucketOnly,
}

/// The bytes of "s3://".
pub open spec fn s3_scheme() -> Seq<u8> {
    seq![115u8, 51u8, 58u8, 47u8, 47u8]
}

/// Whether a byte string holds a '/' anywhere.
pub open spec fn has_slash(s: Seq<u8>) -> bool {
    exists|i: int| 0 <= i < s.len() && s[i] == 47
}

/// Parse a destination path of the form "s3://bucket" into the bucket name.
pub fn parse_s3_path(path: &[u8]) -> (r: Result<Vec<u8>, S3PathError>)
    ensures
        match r {
            Ok(b) => starts_with_spec(path@, s3_scheme()) && b@ == path@.skip(5) && !has_slash(
                b@,
            ),
            Err(S3PathError::MissingScheme) => !starts_with_spec(path@, s3_scheme()),
            Err(S3PathError::NotBucketOnly) => starts_with_spec(path@, s3_scheme()) && has_slash(
                path@.skip(5),
            ),
        },
{
    let n = path.len();
    if !(n >= 5 && path[0] == 115 && path[1] == 51 && path[2] == 58 && path[3] == 47 && path[4]
        == 47) {
        proof {
            if starts_with_spec(path@, s3_scheme()) {
                let s = path@.subrange(0, 5);
                assert(path@[0] == s[0] && path@[1] == s[1] && path@[2] == s[2] && path@[3] == s[3]
                    && path@[4] == s[4]);
            }
        }
        return Err(S3PathError::MissingScheme);
    }
    proof {
        assert(path@.subrange(0, 5) =~= s3_scheme());
    }
    let mut bucket: Vec<u8> = Vec::new();
    let mut i: usize = 5;
    while i < n
        invariant
            5 <= i <= n == path@.len(),
            bucket@ =~= path@.subrange(5, i as int),
        decreases n - i,
    {
        bucket.push(path[i]);
        proof {
            assert(path@.subrange(5, i + 1) =~= path@.subrange(5, i as int).push(
                path@[i as int],
            ));
        }
        i = i + 1;
    }
    proof {
        assert(bucket@ =~= path@.skip(5));
    }
    let mut j: usize = 0;
    while j < bucket.len()
        invariant
            j <= bucket@.len(),
            bucket@ == path@.skip(5),
            starts_with_spec(path@, s3_scheme()),
            forall|k: int| 0 <= k < j ==> bucket@[k] != 47,
        decreases bucket@.len() - j,
    {
        if bucket[j] == 47 {
            proof {
                assert(path@.skip(5)[j as int] == 47);
            }
            return Err(S3PathError::NotBucketOnly);
        }
        j = j + 1;
    }
    proof {
        assert(path@.subrange(0, 5) =~= s3_scheme());
    }
    Ok(bucket)
}

/// Derive the destination key of a file by stripping the source-directory
/// prefix from its path. Returns nothing when the path does not lie under the
/// prefix.
pub fn derive_key(prefix: &[u8], path: &[u8]) -> (r: Option<Vec<u8>>)
    ensures
        match r {
            Some(k) => starts_with_spec(path@, prefix@) && k@ == path@.skip(prefix@.len() as int),
            None => !starts_with_spec(path@, prefix@),
        },
{
    if !crate::bytes::starts_with(path, prefix) {
        return None;
    }
    let mut key: Vec<u8> = Vec::new();
    let mut i: usize = prefix.len();
    while i < path.len()
        invariant
            prefix@.len() <= i <= path@.len(),
            key@ =~= path@.subrange(prefix@.len() as int, i as int),
        decreases path@.len() - i,
    {
        key.push(path[i]);
        proof {
            assert(path@.subrange(prefix@.len() as int, i + 1) =~= path@.subrange(
                prefix@.len() as int,
                i as int,
            ).push(path@[i as int]));
        }
        i = i + 1;
    }
    proof {
        assert(key@ =~= path@.skip(prefix@.len() as int));
    }
    Some(key)
}

/// The backoff delay before retry number `attempt`: one second, doubled per
/// attempt.
pub open spec fn backoff_delay(attempt: nat) -> nat
    decreases attempt,
{
    if attempt == 0 {
        1
    } else {
        2 * backoff_delay((attempt - 1) as nat)
    }
}

/// The exponential backoff, in seconds, before retry number `attempt`.
pub fn backoff_secs(attempt: u32) -> (r: u64)
    requires
        attempt <= MAX_RETRIES,
    ensures
        r as nat == backoff_delay(attempt as nat),
{
    proof {
        assert(backoff_delay(0) == 1);
        assert(backoff_delay(1) == 2);
        assert(backoff_delay(2) == 4);
        assert(backoff_delay(3) == 8);
    }
    match attempt {
        0 => 1,
        1 => 2,
        2 => 4,
        _ => 8,
    }
}

/// What the scheduler does with a finished upload attempt.
#[derive(Clone, Copy, PartialEq, Eq, Structural, Debug)]
pub enum TaskStep {
    /// The task succeeded; its permit is returned.
    Done,
    /// The attempt failed but the retry cap is not reached: retry after the
    /// backoff delay, keeping the permit.
    Retry { delay_secs: u64 },
    /// The attempt failed and the cap is exceeded: the task has permanently
    /// failed; its permit is returned and the run becomes fatal.
    Failed,
}

/// The decision taken when a task that already failed `failures` times
/// reports one more attempt: success ends it, a failure within the cap is
/// retried after a doubled delay, a failure past the cap is permanent.
pub open spec fn spec_retry_step(failures: u32, ok: bool) -> TaskStep {
    if ok {
        TaskStep::Done
    } else if failures + 1 <= MAX_RETRIES {
        TaskStep::Retry { delay_secs: backoff_delay((failures + 1) as nat) as u64 }
    } else {
        TaskStep::Failed
    }
}

fn retry_step(failures: u32, ok: bool) -> (r: TaskStep)
    requires
        failures <= MAX_RETRIES,
    ensures
        r == spec_retry_step(failures, ok),
{
    if ok {
        TaskStep::Done
    } else if failures < MAX_RETRIES {
        TaskStep::Retry { delay_secs: backoff_secs(failures + 1) }
    } else {
        TaskStep::Failed
    }
}

/// An upload task currently holding a permit: the index of its file and how
/// many attempts have failed so far.
#[derive(Clone, Copy, PartialEq, Eq, Structural, Debug)]
pub struct InFlight {
    pub file: usize,
    pub failures: u32,
}

/// Whether some in-flight task works on file `f`.
pub open spec fn flight_contains(s: Seq<InFlight>, f: int) -> bool {
    exists|i: int| 0 <= i < s.len() && s[i].file == f
}

/// Whether a file index occurs in a list.
pub open spec fn files_contain(s: Seq<usize>, f: int) -> bool {
    exists|i: int| 0 <= i < s.len() && s[i] == f
}

/// The scheduler of a bulk run over files numbered `0..total`.
///
/// Permits are conserved: the tasks in flight plus the permits available
/// always add up to the concurrency limit, so at most `limit` uploads run at
/// any instant. Every file below `next` has been scheduled exactly once and
/// is either still in flight, done, or permanently failed.
pub struct Populator {
    limit: usize,
    total: usize,
    next: usize,
    in_flight: Vec<InFlight>,
    done: Vec<usize>,
    failed: Vec<usize>,
}

impl Populator {
    pub closed spec fn spec_limit(&self) -> int {
        self.limit as int
    }

    pub closed spec fn spec_total(&self) -> int {
        self.total as int
    }

    pub closed spec fn spec_next(&self) -> int {
        self.next as int
    }

    pub closed spec fn in_flight_seq(&self) -> Seq<InFlight> {
        self.in_flight@
    }

    pub closed spec fn done_seq(&self) -> Seq<usize> {
        self.done@
    }

    pub closed spec fn failed_seq(&self) -> Seq<usize> {
        self.failed@
    }

    /// The scheduler's invariant, established by `new` and kept by every
    /// transition.
    pub closed spec fn wf(&self) -> bool {
        &&& self.limit >= 1
        &&& self.next <= self.total
        &&& self.in_flight@.len() <= self.limit
        &&& forall|i: int|
            0 <= i < self.in_flight@.len() ==> (#[trigger] self.in_flight@[i]).file < self.next
                && self.in_flight@[i].failures <= MAX_RETRIES
        &&& forall|i: int| 0 <= i < self.done@.len() ==> (#[trigger] self.done@[i]) < self.next
        &&& forall|i: int| 0 <= i < self.failed@.len() ==> (#[trigger] self.failed@[i]) < self.next
        &&& forall|f: int|
            0 <= f < self.next ==> flight_contains(self.in_flight@, f) || files_contain(
                self.done@,
                f,
            ) || files_contain(self.failed@, f)
        &&& forall|i: int, j: int|
            0 <= i < j < self.in_flight@.len() ==> (#[trigger] self.in_flight@[i]).file != (
            #[trigger] self.in_flight@[j]).file
    }

    /// A fresh run over `total` files under `limit` concurrent uploads.
    pub fn new(total: usize, limit: usize) -> (s: Self)
        requires
            limit >= 1,
        ensures
            s.wf(),
            s.spec_limit() == limit,
            s.spec_total() == total,
            s.spec_next() == 0,
            s.in_flight_seq() == Seq::<InFlight>::empty(),
            s.done_seq() == Seq::<usize>::empty(),
            s.failed_seq() == Seq::<usize>::empty(),
    {
        let s = Populator {
            limit,
            total,
            next: 0,
            in_flight: Vec::new(),
            done: Vec::new(),
            failed: Vec::new(),
        };
        proof {
            assert(s.in_flight@ =~= Seq::<InFlight>::empty());
            assert(s.done@ =~= Seq::<usize>::empty());
            assert(s.failed@ =~= Seq::<usize>::empty());
        }
        s
    }

    /// Permits not held by any task. Conservation: the permits available plus
    /// the tasks in flight equal the concurrency limit at all times.
    pub fn permits_available(&self) -> (r: usize)
        requires
            self.wf(),
        ensures
            r + self.in_flight_seq().len() == self.spec_limit(),
    {
        self.limit - self.in_flight.len()
    }

    /// Whether a further task may start now: a file remains, a permit is
    /// free, and no task has permanently failed (fail-fast).
    pub open spec fn can_start(&self) -> bool {
        self.spec_next() < self.spec_total() && self.in_flight_seq().len() < self.spec_limit()
            && self.failed_seq().len() == 0
    }

    /// Schedule the next file if a permit is available: the returned file
    /// index enters the in-flight set with no failures yet.
    pub fn start_next(&mut self) -> (r: Option<usize>)
        requires
            old(self).wf(),
        ensures
            final(self).wf(),
            final(self).spec_limit() == old(self).spec_limit(),
            final(self).spec_total() == old(self).spec_total(),
            match r {
                Some(f) => old(self).can_start() && f == old(self).spec_next() && final(self).spec_next() == old(self).spec_next() + 1 && final(self).in_flight_seq() == old(self).in_flight_seq().push(InFlight { file: f, failures: 0 }) && final(self).done_seq()
                    == old(self).done_seq() && final(self).failed_seq() == old(self).failed_seq(),
                None => !old(self).can_start() && *final(self) == *old(self),
            },
    {
        if self.next < self.total && self.in_flight.len() < self.limit && self.failed.len() == 0 {
            let f = self.next;
            self.in_flight.push(InFlight { file: f, failures: 0 });
            self.next = f + 1;
            proof {
                let sold = old(self).in_flight@;
                let snew = self.in_flight@;
                assert(snew[snew.len() - 1].file == f);
                assert forall|g: int|
                    0 <= g < self.next implies flight_contains(snew, g) || files_contain(
                    self.done@,
                    g,
                ) || files_contain(self.failed@, g) by {
                    if g == f as int {
                        assert(snew[snew.len() - 1].file == g);
                    } else {
                        assert(0 <= g < old(self).next);
                        if flight_contains(sold, g) {
                            let j = choose|j: int| 0 <= j < sold.len() && sold[j].file == g;
                            assert(snew[j].file == g);
                        }
                    }
                }
                assert forall|a: int, b: int|
                    0 <= a < b < snew.len() implies (#[trigger] snew[a]).file != (
                #[trigger] snew[b]).file by {
                    if b == snew.len() - 1 {
                        assert(sold[a].file < old(self).next);
                    }
                }
            }
            Some(f)
        } else {
            None
        }
    }

    /// Record the outcome of one upload attempt of `file`: success ends the
    /// task, a failure within the retry cap keeps it in flight for a delayed
    /// retry, a failure past the cap marks it permanently failed. Unknown
    /// files change nothing.
    pub fn on_result(&mut self, file: usize, ok: bool) -> (r: Option<TaskStep>)
        requires
            old(self).wf(),
        ensures
            final(self).wf(),
            final(self).spec_limit() == old(self).spec_limit(),
            final(self).spec_total() == old(self).spec_total(),
            final(self).spec_next() == old(self).spec_next(),
            match r {
                None => !flight_contains(old(self).in_flight_seq(), file as int) && *final(self)
                    == *old(self),
                Some(step) => exists|i: int|
                    0 <= i < old(self).in_flight_seq().len() && (#[trigger] old(self).in_flight_seq()[i]).file == file && step == spec_retry_step(
                        old(self).in_flight_seq()[i].failures,
                        ok,
                    ) && (match step {
                        TaskStep::Done => final(self).in_flight_seq() == old(self).in_flight_seq().remove(i) && final(self).done_seq() == old(self).done_seq().push(file) && final(self).failed_seq() == old(self).failed_seq(),
                        TaskStep::Retry { .. } => final(self).in_flight_seq() == old(self).in_flight_seq().update(
                            i,
                            InFlight {
                                file,
                                failures: (old(self).in_flight_seq()[i].failures + 1) as u32,
                            },
                        ) && final(self).done_seq() == old(self).done_seq() && final(self).failed_seq() == old(self).failed_seq(),
                        TaskStep::Failed => final(self).in_flight_seq() == old(self).in_flight_seq().remove(i) && final(self).failed_seq() == old(self).failed_seq().push(file) && final(self).done_seq() == old(self).done_seq(),
                    }),
            },
    {
        let n = self.in_flight.len();
        let mut i: usize = 0;
        while i < n
            invariant
                *self == *old(self),
                old(self).wf(),
                i <= n == self.in_flight@.len(),
                forall|j: int| 0 <= j < i ==> (#[trigger] self.in_flight@[j]).file != file,
            decreases n - i,
        {
            if self.in_flight[i].file == file {
                proof {
                    assert(self.in_flight@[i as int].file == file);
                }
                let failures = self.in_flight[i].failures;
                let step = retry_step(failures, ok);
                let ghost pre = *self;
                let ghost ii = i as int;
                match step {
                    TaskStep::Done => {
                        self.in_flight.remove(i);
                        self.done.push(file);
                    },
                    TaskStep::Retry { .. } => {
                        self.in_flight.set(i, InFlight { file, failures: failures + 1 });
                    },
                    TaskStep::Failed => {
                        self.in_flight.remove(i);
                        self.failed.push(file);
                    },
                }
                proof {
                    lemma_wf_after_step(pre, *self, ii, file, step, ok);
                    assert(0 <= ii < pre.in_flight_seq().len() && pre.in_flight_seq()[ii].file
                        == file && step == spec_retry_step(pre.in_flight_seq()[ii].failures, ok));
                }
                return Some(step);
            }
            i = i + 1;
        }
        None
    }
}

proof fn lemma_wf_after_step(pre: Populator, post: Populator, i: int, file: usize, step: TaskStep, ok: bool)
    requires
        pre.wf(),
        0 <= i < pre.in_flight_seq().len(),
        pre.in_flight_seq()[i].file == file,
        step == spec_retry_step(pre.in_flight_seq()[i].failures, ok),
        post.spec_limit() == pre.spec_limit(),
        post.spec_total() == pre.spec_total(),
        post.spec_next() == pre.spec_next(),
        match step {
            TaskStep::Done => post.in_flight_seq() == pre.in_flight_seq().remove(i)
                && post.done_seq() == pre.done_seq().push(file) && post.failed_seq()
                == pre.failed_seq(),
            TaskStep::Retry { .. } => post.in_flight_seq() == pre.in_flight_seq().update(
                i,
                InFlight { file, failures: (pre.in_flight_seq()[i].failures + 1) as u32 },
            ) && post.done_seq() == pre.done_seq() && post.failed_seq() == pre.failed_seq(),
            TaskStep::Failed => post.in_flight_seq() == pre.in_flight_seq().remove(i)
                && post.failed_seq() == pre.failed_seq().push(file) && post.done_seq()
                == pre.done_seq(),
        },
    ensures
        post.wf(),
{
    let s = pre.in_flight_seq();
    let r = post.in_flight_seq();
    match step {
        TaskStep::Retry { .. } => {
            assert forall|a: int|
                0 <= a < r.len() implies (#[trigger] r[a]).file < post.spec_next()
                    && r[a].failures <= MAX_RETRIES by {
                if a != i {
                    assert(r[a] == s[a]);
                } else {
                    assert(s[i].failures + 1 <= MAX_RETRIES);
                }
            }
            assert forall|g: int|
                0 <= g < post.spec_next() implies flight_contains(r, g) || files_contain(
                post.done_seq(),
                g,
            ) || files_contain(post.failed_seq(), g) by {
                if flight_contains(s, g) {
                    let j = choose|j: int| 0 <= j < s.len() && s[j].file == g;
                    if j == i {
                        assert(r[i].file == file);
                    } else {
                        assert(r[j] == s[j]);
                    }
                    assert(flight_contains(r, g));
                }
            }
            assert forall|a: int, b: int|
                0 <= a < b < r.len() implies (#[trigger] r[a]).file != (#[trigger] r[b]).file by {
                assert(a == i || r[a] == s[a]);
                assert(b == i || r[b] == s[b]);
                assert(r[a].file == s[a].file);
                assert(r[b].file == s[b].file);
            }
        },
        _ => {
            s.remove_ensures(i);
            assert forall|a: int|
                0 <= a < r.len() implies (#[trigger] r[a]).file < post.spec_next()
                    && r[a].failures <= MAX_RETRIES by {
                if a < i {
                    assert(r[a] == s[a]);
                } else {
                    assert(r[a] == s[a + 1]);
                }
            }
            assert forall|a: int, b: int|
                0 <= a < b < r.len() implies (#[trigger] r[a]).file != (#[trigger] r[b]).file by {
                let a0: int = if a < i {
                    a
                } else {
                    a + 1
                };
                let b0: int = if b < i {
                    b
                } else {
                    b + 1
                };
                assert(r[a] == s[a0]);
                assert(r[b] == s[b0]);
            }
            let moved = match step {
                TaskStep::Done => post.done_seq(),
                _ => post.failed_seq(),
            };
            assert(moved[moved.len() - 1] == file);
            assert forall|a: int|
                0 <= a < post.done_seq().len() implies (#[trigger] post.done_seq()[a])
                    < post.spec_next() by {
                if a < pre.done_seq().len() {
                    assert(post.done_seq()[a] == pre.done_seq()[a]);
                }
            }
            assert forall|a: int|
                0 <= a < post.failed_seq().len() implies (#[trigger] post.failed_seq()[a])
                    < post.spec_next() by {
                if a < pre.failed_seq().len() {
                    assert(post.failed_seq()[a] == pre.failed_seq()[a]);
                }
            }
            assert forall|g: int|
                0 <= g < post.spec_next() implies flight_contains(r, g) || files_contain(
                post.done_seq(),
                g,
            ) || files_contain(post.failed_seq(), g) by {
                if flight_contains(s, g) {
                    let j = choose|j: int| 0 <= j < s.len() && s[j].file == g;
                    if j == i {
                        assert(moved[moved.len() - 1] == file);
                        assert(g == file);
                        assert(files_contain(moved, g));
                    } else if j < i {
                        assert(r[j] == s[j]);
                        assert(flight_contains(r, g));
                    } else {
                        assert(r[j - 1] == s[j]);
                        assert(flight_contains(r, g));
                    }
                } else if files_contain(pre.done_seq(), g) {
                    let j = choose|j: int|
                        0 <= j < pre.done_seq().len() && pre.done_seq()[j] == g;
                    assert(post.done_seq()[j] == g);
                    assert(files_contain(post.done_seq(), g));
                } else {
                    assert(files_contain(pre.failed_seq(), g));
                    let j = choose|j: int|
                        0 <= j < pre.failed_seq().len() && pre.failed_seq()[j] == g;
                    assert(post.failed_seq()[j] == g);
                    assert(files_contain(post.failed_seq(), g));
                }
            }
        },
    }
}

/// Permit conservation: a well-formed scheduler never has more tasks in
/// flight than its concurrency limit.
pub proof fn lemma_bounded_in_flight(p: Populator)
    requires
        p.wf(),
    ensures
        p.in_flight_seq().len() <= p.spec_limit(),
{
}

/// Completeness: when a run has scheduled every file and nothing is in
/// flight or permanently failed, every file was uploaded.
pub proof fn lemma_all_attempted(p: Populator)
    requires
        p.wf(),
        p.spec_next() == p.spec_total(),
        p.in_flight_seq().len() == 0,
        p.failed_seq().len() == 0,
    ensures
        forall|f: int| 0 <= f < p.spec_total() ==> files_contain(p.done_seq(), f),
{
}

/// The retry policy: an upload that fails while the cap is not yet reached
/// is retried with the delay doubled per attempt; one that succeeds on any
/// attempt within the cap is done; one whose failure exceeds the cap is a
/// permanent failure. In particular a task that fails exactly three times and
/// then succeeds is reported successful, and one that fails four times is
/// reported permanently failed.
pub proof fn lemma_retry_cap()
    ensures
        spec_retry_step(0, false) == (TaskStep::Retry { delay_secs: 2 }),
        spec_retry_step(1, false) == (TaskStep::Retry { delay_secs: 4 }),
        spec_retry_step(2, false) == (TaskStep::Retry { delay_secs: 8 }),
        spec_retry_step(3, true) == TaskStep::Done,
        spec_retry_step(3, false) == TaskStep::Failed,
        forall|k: u32| spec_retry_step(k, true) == TaskStep::Done,
{
    assert(backoff_delay(0) == 1);
    assert(backoff_delay(1) == 2);
    assert(backoff_delay(2) == 4);
    assert(backoff_delay(3) == 8);
}

/// What a finished run leaves in the destination store: every file's payload
/// under its key, later duplicates of a key overriding earlier ones.
pub open spec fn upload_batch(
    m: Map<Seq<u8>, Seq<u8>>,
    files: Seq<(Vec<u8>, Vec<u8>)>,
) -> Map<Seq<u8>, Seq<u8>>
    decreases files.len(),
{
    if files.len() == 0 {
        m
    } else {
        upload_batch(m, files.drop_last()).insert(files.last().0@, files.last().1@)
    }
}

proof fn lemma_upload_batch_covers(m: Map<Seq<u8>, Seq<u8>>, files: Seq<(Vec<u8>, Vec<u8>)>)
    ensures
        forall|i: int|
            0 <= i < files.len() ==> upload_batch(m, files).contains_key(
                (#[trigger] files[i]).0@,
            ),
    decreases files.len(),
{
    if files.len() > 0 {
        lemma_upload_batch_covers(m, files.drop_last());
        assert(forall|i: int|
            0 <= i < files.len() - 1 ==> files.drop_last()[i] == #[trigger] files[i]);
    }
}

/// Upload a list of (key, payload) files into a destination store under a
/// bounded number of concurrent tasks. This is the run over the in-memory
/// model store, whose writes do not fail; a driver over a remote bucket
/// performs the same schedule and reports each attempt through `on_result`.
pub fn populate(files: &Vec<(Vec<u8>, Vec<u8>)>, store: &mut ObjectStore, limit: usize) -> (p:
    Populator)
    requires
        limit >= 1,
    ensures
        final(store)@ == upload_batch(old(store)@, files@),
        forall|i: int|
            0 <= i < files@.len() ==> final(store)@.contains_key((#[trigger] files@[i]).0@),
        p.wf(),
        p.spec_total() == files@.len(),
        p.spec_next() == files@.len(),
        forall|f: int| 0 <= f < files@.len() ==> files_contain(p.done_seq(), f),
{
    let mut pop = Populator::new(files.len(), limit);
    let ghost pre = store@;
    loop
        invariant_except_break
            pop.wf(),
            pop.spec_limit() == limit,
            1 <= limit,
            pop.spec_total() == files@.len(),
            pop.in_flight_seq().len() == 0,
            pop.failed_seq().len() == 0,
            store@ == upload_batch(pre, files@.take(pop.spec_next())),
        ensures
            pop.wf(),
            pop.spec_total() == files@.len(),
            pop.spec_next() == files@.len(),
            pop.in_flight_seq().len() == 0,
            pop.failed_seq().len() == 0,
            store@ == upload_batch(pre, files@.take(pop.spec_next())),
        decreases files@.len() - pop.spec_next(),
    {
        let ghost pre_pop = pop;
        match pop.start_next() {
            None => {
                break ;
            },
            Some(f) => {
                let (key, data) = &files[f];
                let key_copy = vstd::slice::slice_to_vec(key.as_slice());
                let data_copy = vstd::slice::slice_to_vec(data.as_slice());
                store.put_object(key_copy, data_copy);
                proof {
                    assert(files@.take(f + 1).drop_last() =~= files@.take(f as int));
                    assert(files@.take(f + 1).last() == files@[f as int]);
                }
                let _ = pop.on_result(f, true);
                proof {
                    assert(pop.in_flight_seq().len() == 0) by {
                        assert(pre_pop.in_flight_seq().push(
                            InFlight { file: f, failures: 0 },
                        ).len() == 1);
                    }
                }
            },
        }
    }
    proof {
        assert(files@.take(files@.len() as int) =~= files@);
        lemma_upload_batch_covers(pre, files@);
        lemma_all_attempted(pop);
    }
    pop
}

} // verus!
