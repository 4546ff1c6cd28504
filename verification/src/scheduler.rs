//! The order in which a plan is carried out: transfers before deletions,
//! higher priority first, a bounded number of items in flight.

use vstd::prelude::*;
use crate::error::Error;
use crate::simple_diff_transfer::{
    generate_plan, is_diff_of, repeats, SimpleDiffTransfer, SimpleDiffTransferConfig, TransferPlan,
};
use crate::sorting::{is_stable_sort, stable_sort, stable_sort_by, ByPriority, Ordered};
use crate::traits::{Diff, Key, Metadata};
use crate::utils::checksum::same_text;

verus! {

/// One piece of work: an item to transfer, or an item to delete.
pub struct Job<S> {
    pub item: S,
    pub deleting: bool,
}

/// `a` has to be over before `b` may begin: a transfer before a deletion,
/// and within either the higher priority first.
pub open spec fn goes_before<S: Metadata>(a: Job<S>, b: Job<S>) -> bool {
    (!a.deleting && b.deleting) || (a.deleting == b.deleting && a.item.priority_of()
        > b.item.priority_of())
}

/// What the driver is to do next.
#[derive(Debug, Copy, Clone, PartialEq, Eq, Structural)]
pub enum Action {
    /// Begin the job with this number.
    Start(usize),
    /// Nothing can begin before a job in flight is over.
    Wait,
    /// Every job is over.
    Finished,
}

/// How many of the first `n` flags are not set.
pub open spec fn pending(done: Seq<bool>, n: int) -> int
    decreases n,
{
    if n <= 0 {
        0
    } else {
        pending(done, n - 1) + if done[n - 1] {
            0int
        } else {
            1int
        }
    }
}

proof fn lemma_pending_bounds(done: Seq<bool>, n: int)
    requires
        0 <= n <= done.len(),
    ensures
        0 <= pending(done, n) <= n,
        pending(done, n) == 0 <==> forall|i: int| 0 <= i < n ==> done[i],
    decreases n,
{
    if n > 0 {
        lemma_pending_bounds(done, n - 1);
    }
}

proof fn lemma_pending_set(done: Seq<bool>, n: int, i: int)
    requires
        0 <= i < n <= done.len(),
        !done[i],
    ensures
        pending(done.update(i, true), n) == pending(done, n) - 1,
    decreases n,
{
    if i == n - 1 {
        lemma_pending_same(done, done.update(i, true), n - 1);
    } else {
        lemma_pending_set(done, n - 1, i);
    }
}

proof fn lemma_pending_same(a: Seq<bool>, b: Seq<bool>, n: int)
    requires
        0 <= n <= a.len(),
        n <= b.len(),
        forall|i: int| 0 <= i < n ==> a[i] == b[i],
    ensures
        pending(a, n) == pending(b, n),
    decreases n,
{
    if n > 0 {
        lemma_pending_same(a, b, n - 1);
    }
}

/// The jobs for `transfers`, then those for `deletions`.
pub open spec fn jobs_of<S>(transfers: Seq<S>, deletions: Seq<S>) -> Seq<Job<S>> {
    Seq::new(
        transfers.len() + deletions.len(),
        |i: int|
            if i < transfers.len() {
                Job { item: transfers[i], deleting: false }
            } else {
                Job { item: deletions[i - transfers.len()], deleting: true }
            },
    )
}

/// `transfers` and `deletions` are the work of a plan in the order in which
/// it is handed out: what is added and then what is updated, sorted stably
/// by descending priority, and what is deleted, sorted likewise. A dry run
/// has no work, and with `no_delete` nothing is deleted.
pub open spec fn is_work_of<S: Metadata>(
    add: Seq<S>,
    update: Seq<S>,
    delete: Seq<S>,
    dry_run: bool,
    no_delete: bool,
    transfers: Seq<S>,
    deletions: Seq<S>,
) -> bool {
    &&& if dry_run {
        transfers.len() == 0
    } else {
        is_stable_sort(add + update, transfers, ByPriority)
    }
    &&& if dry_run || no_delete {
        deletions.len() == 0
    } else {
        is_stable_sort(delete, deletions, ByPriority)
    }
}

/// `jobs` is the work of the plan under the configuration given.
pub open spec fn is_schedule_of<S: Metadata>(
    add: Seq<S>,
    update: Seq<S>,
    delete: Seq<S>,
    dry_run: bool,
    no_delete: bool,
    jobs: Seq<Job<S>>,
) -> bool {
    exists|transfers: Seq<S>, deletions: Seq<S>|
        jobs == #[trigger] jobs_of(transfers, deletions) && is_work_of(
            add,
            update,
            delete,
            dry_run,
            no_delete,
            transfers,
            deletions,
        )
}

proof fn lemma_sorted_by_priority<S: Metadata>(input: Seq<S>, output: Seq<S>)
    requires
        is_stable_sort(input, output, ByPriority),
    ensures
        forall|i: int, j: int|
            0 <= i < j < output.len() ==> (#[trigger] output[i]).priority_of()
                >= (#[trigger] output[j]).priority_of(),
{
    let (from, back) = choose|from: Seq<int>, back: Seq<int>| #[trigger]
        stable_sort_by(input, output, ByPriority, from, back);
    assert forall|i: int, j: int| 0 <= i < j < output.len() implies (#[trigger] output[i]).priority_of()
        >= (#[trigger] output[j]).priority_of() by {
        assert(ByPriority.le(output[i], output[j]));
    }
}

/// The jobs of one run and how far each has come.
pub struct Scheduler<S> {
    jobs: Vec<Job<S>>,
    done: Vec<bool>,
    failed: Vec<bool>,
    next: usize,
    running: usize,
    limit: usize,
}

impl<S: Metadata> Scheduler<S> {
    pub closed spec fn jobs(&self) -> Seq<Job<S>> {
        self.jobs@
    }

    /// The job `i` has begun.
    pub closed spec fn started(&self, i: int) -> bool {
        0 <= i < self.next
    }

    /// The job `i` is over, with or without success.
    pub closed spec fn finished(&self, i: int) -> bool {
        0 <= i < self.done@.len() && self.done@[i]
    }

    /// The job `i` is over and did not succeed.
    pub closed spec fn failed(&self, i: int) -> bool {
        0 <= i < self.failed@.len() && self.failed@[i]
    }

    /// How many of the first `n` jobs have failed.
    pub open spec fn failed_among(&self, n: int) -> int
        decreases n,
    {
        if n <= 0 {
            0
        } else {
            self.failed_among(n - 1) + if self.failed(n - 1) {
                1int
            } else {
                0int
            }
        }
    }

    /// How many jobs are in flight.
    pub closed spec fn in_flight(&self) -> int {
        self.running as int
    }

    pub closed spec fn limit(&self) -> int {
        self.limit as int
    }

    /// The number of the job that begins next.
    pub closed spec fn cursor(&self) -> int {
        self.next as int
    }

    /// Every job that has to be over before the job `i` may begin is over.
    pub open spec fn clear_for(&self, i: int) -> bool {
        forall|j: int|
            0 <= j < self.jobs().len() && goes_before(#[trigger] self.jobs()[j], self.jobs()[i])
                ==> self.finished(j)
    }

    /// The state is one that the scheduler itself has reached.
    pub closed spec fn wf(&self) -> bool {
        &&& self.done@.len() == self.jobs@.len()
        &&& self.failed@.len() == self.jobs@.len()
        &&& forall|i: int| 0 <= i < self.failed@.len() && #[trigger] self.failed@[i] ==> self.done@[i]
        &&& self.next <= self.jobs@.len()
        &&& self.limit >= 1 || self.jobs@.len() == 0
        &&& self.running <= self.limit
        &&& self.running == pending(self.done@, self.next as int)
        &&& forall|i: int, j: int|
            0 <= i < j < self.jobs@.len() ==> !goes_before(
                #[trigger] self.jobs@[j],
                #[trigger] self.jobs@[i],
            )
        &&& forall|i: int| 0 <= i < self.done@.len() && #[trigger] self.done@[i] ==> i < self.next
        &&& forall|i: int| 0 <= i < self.next ==> #[trigger] self.clear_for(i)
    }

    /// The next job may begin now.
    pub open spec fn can_start(&self) -> bool {
        &&& self.cursor() < self.jobs().len()
        &&& self.in_flight() < self.limit()
        &&& self.clear_for(self.cursor())
    }

    /// The same jobs and the same bound.
    pub open spec fn same_work(&self, other: &Self) -> bool {
        self.jobs() == other.jobs() && self.limit() == other.limit()
    }

    /// The scheduler for a plan. A dry run has no jobs and is never
    /// refused; any other run is refused where no item could ever be in
    /// flight.
    pub fn new(plan: TransferPlan<S>, config: &SimpleDiffTransferConfig) -> (r: Result<
        Self,
        Error,
    >)
        ensures
            r is Err <==> config.concurrent_transfer == 0 && !config.dry_run,
            r matches Err(e) ==> e is ConfigureError,
            r matches Ok(s) ==> {
                &&& s.wf()
                &&& s.cursor() == 0
                &&& s.in_flight() == 0
                &&& s.limit() == config.concurrent_transfer
                &&& forall|i: int| !s.finished(i)
                &&& forall|i: int| !s.failed(i)
                &&& is_schedule_of(
                    plan.add@,
                    plan.update@,
                    plan.delete@,
                    config.dry_run,
                    config.no_delete,
                    s.jobs(),
                )
            },
    {
        if config.concurrent_transfer == 0 && !config.dry_run {
            return Err(Error::ConfigureError(String::from_str("no transfer can be in flight")));
        }
        let TransferPlan { add, update, delete } = plan;
        let mut transfers: Vec<S> = Vec::new();
        let mut deletions: Vec<S> = Vec::new();
        if !config.dry_run {
            let mut joined = add;
            let mut update = update;
            joined.append(&mut update);
            transfers = stable_sort(joined, &ByPriority);
            if !config.no_delete {
                deletions = stable_sort(delete, &ByPriority);
            }
        }
        let ghost t = transfers@;
        let ghost d = deletions@;
        proof {
            if !config.dry_run {
                lemma_sorted_by_priority(plan.add@ + plan.update@, t);
                if !config.no_delete {
                    lemma_sorted_by_priority(plan.delete@, d);
                }
            }
        }
        let mut jobs: Vec<Job<S>> = Vec::new();
        let mut done: Vec<bool> = Vec::new();
        let mut failed: Vec<bool> = Vec::new();
        for item in it: transfers
            invariant
                it.seq() == t,
                jobs@.len() == it.index(),
                done@.len() == it.index(),
                failed@.len() == it.index(),
                forall|i: int| 0 <= i < jobs@.len() ==> #[trigger] jobs@[i] == jobs_of(t, d)[i],
                forall|i: int| 0 <= i < done@.len() ==> !#[trigger] done@[i],
                forall|i: int| 0 <= i < failed@.len() ==> !#[trigger] failed@[i],
        {
            jobs.push(Job { item, deleting: false });
            done.push(false);
            failed.push(false);
        }
        for item in it: deletions
            invariant
                it.seq() == d,
                jobs@.len() == t.len() + it.index(),
                done@.len() == t.len() + it.index(),
                failed@.len() == t.len() + it.index(),
                forall|i: int| 0 <= i < jobs@.len() ==> #[trigger] jobs@[i] == jobs_of(t, d)[i],
                forall|i: int| 0 <= i < done@.len() ==> !#[trigger] done@[i],
                forall|i: int| 0 <= i < failed@.len() ==> !#[trigger] failed@[i],
        {
            jobs.push(Job { item, deleting: true });
            done.push(false);
            failed.push(false);
        }
        proof {
            assert(jobs@ =~= jobs_of(t, d));
            assert(is_work_of(
                plan.add@,
                plan.update@,
                plan.delete@,
                config.dry_run,
                config.no_delete,
                t,
                d,
            ));
        }
        let s = Scheduler {
            jobs,
            done,
            failed,
            next: 0,
            running: 0,
            limit: config.concurrent_transfer,
        };
        Ok(s)
    }

    /// Decides what the driver does next. A job begins only when fewer jobs
    /// than the bound are in flight and every job that goes before it is
    /// over.
    pub fn next_action(&mut self) -> (a: Action)
        requires
            old(self).wf(),
        ensures
            final(self).wf(),
            final(self).same_work(old(self)),
            forall|i: int| final(self).finished(i) == old(self).finished(i),
            forall|i: int| final(self).failed(i) == old(self).failed(i),
            a matches Action::Start(_) <==> old(self).can_start(),
            a matches Action::Start(i) ==> {
                &&& i == old(self).cursor()
                &&& final(self).cursor() == i + 1
                &&& final(self).in_flight() == old(self).in_flight() + 1
            },
            !(a matches Action::Start(_)) ==> {
                &&& final(self).cursor() == old(self).cursor()
                &&& final(self).in_flight() == old(self).in_flight()
            },
            a is Finished <==> forall|i: int|
                0 <= i < old(self).jobs().len() ==> old(self).finished(i),
            a is Wait ==> old(self).in_flight() > 0,
    {
        let n: usize = self.jobs.len();
        proof {
            lemma_pending_bounds(self.done@, self.next as int);
        }
        if self.next == n {
            if self.running == 0 {
                return Action::Finished;
            }
            proof {
                self.lemma_unfinished_blocks();
            }
            return Action::Wait;
        }
        proof {
            assert(!self.finished(self.next as int));
        }
        if self.running >= self.limit {
            return Action::Wait;
        }
        if self.running > 0 && self.next > 0 {
            let prev = &self.jobs[self.next - 1];
            let cur = &self.jobs[self.next];
            let barrier = (!prev.deleting && cur.deleting) || (prev.deleting == cur.deleting
                && prev.item.priority() > cur.item.priority());
            if barrier {
                proof {
                    self.lemma_unfinished_blocks();
                }
                return Action::Wait;
            }
        }
        let i: usize = self.next;
        proof {
            self.lemma_clear_at_cursor();
            assert(pending(self.done@, i + 1) == pending(self.done@, i as int) + 1);
        }
        self.next = i + 1;
        self.running = self.running + 1;
        Action::Start(i)
    }

    /// Takes note that the job `i` is over, and whether it succeeded. A
    /// failure ends that job only: the others begin and end as before.
    /// Returns `false`, and changes nothing, if the job was not in flight.
    pub fn complete(&mut self, i: usize, succeeded: bool) -> (accepted: bool)
        requires
            old(self).wf(),
        ensures
            final(self).wf(),
            final(self).same_work(old(self)),
            final(self).cursor() == old(self).cursor(),
            accepted == (old(self).started(i as int) && !old(self).finished(i as int)),
            accepted ==> final(self).in_flight() == old(self).in_flight() - 1,
            !accepted ==> final(self).in_flight() == old(self).in_flight(),
            forall|j: int|
                final(self).finished(j) == (old(self).finished(j) || (accepted && j == i)),
            forall|j: int|
                final(self).failed(j) == (old(self).failed(j) || (accepted && j == i
                    && !succeeded)),
    {
        if i < self.next && !self.done[i] {
            proof {
                lemma_pending_set(self.done@, self.next as int, i as int);
                lemma_pending_bounds(self.done@, self.next as int);
            }
            let ghost before = *self;
            self.done.set(i, true);
            if !succeeded {
                self.failed.set(i, true);
            }
            self.running = self.running - 1;
            proof {
                assert(self.jobs@ == before.jobs@);
                assert forall|a: int| 0 <= a < self.next implies #[trigger] self.clear_for(a) by {
                    assert(before.clear_for(a));
                    assert forall|j: int|
                        0 <= j < self.jobs().len() && goes_before(
                            #[trigger] self.jobs()[j],
                            self.jobs()[a],
                        ) implies self.finished(j) by {
                        assert(goes_before(before.jobs()[j], before.jobs()[a]));
                        assert(before.finished(j));
                    }
                }
            }
            true
        } else {
            false
        }
    }

    /// With the work sorted, a job in flight that goes before the next job
    /// keeps it from beginning.
    proof fn lemma_unfinished_blocks(&self)
        requires
            self.wf(),
            self.running > 0,
        ensures
            exists|i: int| 0 <= i < self.next && !self.finished(i),
            0 < self.next < self.jobs@.len() && goes_before(
                self.jobs@[self.next - 1],
                self.jobs@[self.next as int],
            ) ==> !self.clear_for(self.next as int),
    {
        lemma_pending_bounds(self.done@, self.next as int);
        let i = choose|i: int| 0 <= i < self.next && !self.done@[i];
        assert(!self.finished(i));
        if 0 < self.next < self.jobs@.len() && goes_before(
            self.jobs@[self.next - 1],
            self.jobs@[self.next as int],
        ) {
            let last = self.jobs@[self.next - 1];
            let cur = self.jobs@[self.next as int];
            if i < self.next - 1 {
                assert(!goes_before(last, self.jobs@[i]));
            }
            assert(goes_before(self.jobs()[i], cur));
        }
    }

    /// Where the driver is let through to the next job, that job is clear.
    proof fn lemma_clear_at_cursor(&self)
        requires
            self.wf(),
            self.next < self.jobs@.len(),
            self.running == 0 || self.next == 0 || !goes_before(
                self.jobs@[self.next - 1],
                self.jobs@[self.next as int],
            ),
        ensures
            self.clear_for(self.next as int),
    {
        let c = self.next as int;
        lemma_pending_bounds(self.done@, c);
        assert forall|j: int|
            0 <= j < self.jobs().len() && goes_before(
                #[trigger] self.jobs()[j],
                self.jobs()[c],
            ) implies self.finished(j) by {
            if j >= c {
                if j > c {
                    assert(!goes_before(self.jobs@[j], self.jobs@[c]));
                }
            } else if self.running == 0 {
            } else {
                assert(!goes_before(self.jobs@[c], self.jobs@[c - 1]));
                assert(self.clear_for(c - 1));
                assert(goes_before(self.jobs()[j], self.jobs()[c - 1]));
            }
        }
    }

    /// How many jobs there are.
    pub fn len(&self) -> (n: usize)
        ensures
            n == self.jobs().len(),
    {
        self.jobs.len()
    }

    /// The job with the number `i`.
    pub fn job(&self, i: usize) -> (j: Option<&Job<S>>)
        ensures
            j is Some <==> i < self.jobs().len(),
            j matches Some(job) ==> *job == self.jobs()[i as int],
    {
        if i < self.jobs.len() {
            Some(&self.jobs[i])
        } else {
            None
        }
    }

    /// Whether the job `i` is over and did not succeed.
    pub fn has_failed(&self, i: usize) -> (r: bool)
        requires
            self.wf(),
        ensures
            r == self.failed(i as int),
    {
        i < self.failed.len() && self.failed[i]
    }

    /// How many jobs have failed: as many as the driver has warnings to
    /// give.
    pub fn failures(&self) -> (n: usize)
        requires
            self.wf(),
        ensures
            n == self.failed_among(self.jobs().len() as int),
    {
        let total: usize = self.failed.len();
        let mut n: usize = 0;
        let mut i: usize = 0;
        while i < total
            invariant
                i <= total,
                total == self.failed@.len(),
                n == self.failed_among(i as int),
                n <= i,
            decreases total - i,
        {
            if self.failed[i] {
                n += 1;
            }
            i += 1;
        }
        n
    }

    /// Whether the job `i` is in flight.
    pub fn is_running(&self, i: usize) -> (r: bool)
        requires
            self.wf(),
        ensures
            r == (self.started(i as int) && !self.finished(i as int)),
    {
        i < self.next && !self.done[i]
    }
}

impl<S: Metadata + Key> Scheduler<S> {
    /// Some job deletes the object of the key `key`.
    pub open spec fn has_deletion(&self, key: Seq<char>) -> bool {
        exists|i: int|
            0 <= i < self.jobs().len() && (#[trigger] self.jobs()[i]).deleting
                && self.jobs()[i].item.key_view() == key
    }

    /// Whether the run deletes the object of a key. What it does not
    /// delete, a target keeps when it sweeps at the end.
    pub fn deletes(&self, key: &str) -> (r: bool)
        ensures
            r == self.has_deletion(key@),
    {
        let n: usize = self.jobs.len();
        let mut i: usize = 0;
        while i < n
            invariant
                i <= n,
                n == self.jobs@.len(),
                forall|k: int|
                    0 <= k < i ==> !((#[trigger] self.jobs()[k]).deleting
                        && self.jobs()[k].item.key_view() == key@),
            decreases n - i,
        {
            if self.jobs[i].deleting && same_text(self.jobs[i].item.key(), key) {
                proof {
                    assert(self.jobs()[i as int].deleting && self.jobs()[i as int].item.key_view()
                        == key@);
                }
                return true;
            }
            i += 1;
        }
        false
    }
}

/// What the engine has decided before the first job begins.
pub struct Transfer<S> {
    /// The jobs, in the order in which they are handed out.
    pub scheduler: Scheduler<S>,
    /// The first lines of the plan, as many as the configuration asks for.
    pub preview: Vec<String>,
    /// How many items are added, updated and deleted by the plan, whether
    /// or not the configuration lets the jobs run.
    pub added: usize,
    pub updated: usize,
    pub deleted: usize,
    /// How many items of the source and of the target repeated a key.
    pub source_duplicates: usize,
    pub target_duplicates: usize,
}

/// `transfer` is what the engine decides for the two snapshots under the
/// configuration: the plan of their difference, its first lines, and the
/// jobs of the plan in their order.
pub open spec fn is_transfer_of<S: Key + Diff + Metadata>(
    source: Seq<S>,
    target: Seq<S>,
    config: SimpleDiffTransferConfig,
    transfer: Transfer<S>,
) -> bool {
    exists|add: Seq<S>, update: Seq<S>, delete: Seq<S>|
        {
            &&& #[trigger] is_diff_of(source, target, add, update, delete, config.force_all)
            &&& is_schedule_of(
                add,
                update,
                delete,
                config.dry_run,
                config.no_delete,
                transfer.scheduler.jobs(),
            )
            &&& transfer.preview.deep_view() == crate::simple_diff_transfer::plan_lines(
                add,
                update,
                delete,
            ).take(
                crate::simple_diff_transfer::capped(
                    crate::simple_diff_transfer::plan_lines(add, update, delete).len() as int,
                    config.print_plan as int,
                ),
            )
            &&& transfer.added == add.len()
            &&& transfer.updated == update.len()
            &&& transfer.deleted == delete.len()
        }
}

/// `r` is what the engine decides for the two snapshots under the
/// configuration: a dry run stops after the plan, with no jobs, and is never
/// refused; any other run is refused where no item could ever be in flight,
/// and else has the jobs of the plan, none of them begun.
pub open spec fn is_run_of<S: Key + Diff + Metadata>(
    config: SimpleDiffTransferConfig,
    source: Seq<S>,
    target: Seq<S>,
    r: Result<Transfer<S>, Error>,
) -> bool {
    match r {
        Err(e) => config.concurrent_transfer == 0 && !config.dry_run && e is ConfigureError,
        Ok(transfer) => {
            &&& !(config.concurrent_transfer == 0 && !config.dry_run)
            &&& is_transfer_of(source, target, config, transfer)
            &&& transfer.scheduler.wf()
            &&& transfer.scheduler.cursor() == 0
            &&& transfer.scheduler.in_flight() == 0
            &&& transfer.scheduler.limit() == config.concurrent_transfer
            &&& forall|i: int| !transfer.scheduler.finished(i)
            &&& forall|i: int| !transfer.scheduler.failed(i)
            &&& repeats(source, transfer.source_duplicates as int)
            &&& repeats(target, transfer.target_duplicates as int)
        },
    }
}

impl<Source, Target> SimpleDiffTransfer<Source, Target> {
    /// Decides what a run does, from the snapshots of the source and of the
    /// target: both are brought into canonical form and compared, and the
    /// difference is laid out as jobs. A dry run stops after the plan: it
    /// has no jobs and is never refused. Any other run is refused where no
    /// item could ever be in flight.
    pub fn plan<S: Key + Diff + Metadata>(
        &self,
        source_snapshot: Vec<S>,
        target_snapshot: Vec<S>,
    ) -> (r:
        Result<Transfer<S>, Error>)
        ensures
            is_run_of(self.config, source_snapshot@, target_snapshot@, r),
    {
        let report = generate_plan(source_snapshot, target_snapshot, self.config.force_all);
        let preview = report.plan.preview(self.config.print_plan);
        let added = report.plan.add.len();
        let updated = report.plan.update.len();
        let deleted = report.plan.delete.len();
        let ghost add = report.plan.add@;
        let ghost update = report.plan.update@;
        let ghost delete = report.plan.delete@;
        match Scheduler::new(report.plan, &self.config) {
            Ok(scheduler) => {
                let transfer = Transfer {
                    scheduler,
                    preview,
                    added,
                    updated,
                    deleted,
                    source_duplicates: report.source_duplicates,
                    target_duplicates: report.target_duplicates,
                };
                proof {
                    assert(is_diff_of(
                        source_snapshot@,
                        target_snapshot@,
                        add,
                        update,
                        delete,
                        self.config.force_all,
                    ));
                }
                Ok(transfer)
            },
            Err(e) => Err(e),
        }
    }

    /// Decides what a run does from what the two enumerations gave. Both
    /// have to succeed: a failed enumeration ends the run with its failure,
    /// that of the source first, and nothing is planned, so that nothing is
    /// fetched, put or deleted.
    pub fn plan_from<S: Key + Diff + Metadata>(
        &self,
        source: Result<Vec<S>, Error>,
        target: Result<Vec<S>, Error>,
    ) -> (r: Result<Transfer<S>, Error>)
        ensures
            match (source, target) {
                (Err(e), _) => r == Err::<Transfer<S>, Error>(e),
                (Ok(_), Err(e)) => r == Err::<Transfer<S>, Error>(e),
                (Ok(s), Ok(t)) => is_run_of(self.config, s@, t@, r),
            },
    {
        match source {
            Err(e) => Err(e),
            Ok(source_snapshot) => match target {
                Err(e) => Err(e),
                Ok(target_snapshot) => self.plan(source_snapshot, target_snapshot),
            },
        }
    }
}

/// Priority scheduling: in every state that the scheduler reaches, a job
/// that has begun finds every job that goes before it over. So no transfer
/// begins while one of higher priority is still in flight or waiting, and
/// no deletion begins before every transfer is over.
pub proof fn lemma_priority_scheduling<S: Metadata>(s: Scheduler<S>, i: int, j: int)
    requires
        s.wf(),
        s.started(i),
        0 <= j < s.jobs().len(),
        goes_before(s.jobs()[j], s.jobs()[i]),
    ensures
        s.finished(j),
{
    assert(s.clear_for(i));
}

/// Jobs begin in the order of the schedule, and only a job that has begun
/// is ever over.
pub proof fn lemma_started_in_order<S: Metadata>(s: Scheduler<S>, i: int, j: int)
    requires
        s.wf(),
        0 <= i <= j,
    ensures
        s.started(j) ==> s.started(i),
        s.finished(j) ==> s.started(j),
        s.in_flight() <= s.limit(),
{
}

} // verus!
