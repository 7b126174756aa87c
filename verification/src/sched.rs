use vstd::prelude::*;
use crate::types::JobStatus;

verus! {

/// How many of the tracked jobs are running.
pub open spec fn count_running(states: Seq<JobStatus>) -> int
    decreases states.len(),
{
    if states.len() == 0 {
        0
    } else {
        count_running(states.drop_last()) + (if states.last() == JobStatus::Running {
            1int
        } else {
            0int
        })
    }
}

/// The jobs-in-flight limiter: each job's lifecycle state under a fixed
/// bound on how many run at once. A job enters the running phase only
/// through `try_start`, which refuses once the bound is reached, so at no
/// point are more jobs running than the bound allows.
#[derive(Debug, PartialEq)]
pub struct Scheduler {
    pub capacity: usize,
    pub states: Vec<JobStatus>,
    pub running: usize,
}

/// What always holds of the limiter: the running counter counts the
/// running jobs, and never passes the bound.
pub open spec fn sched_inv(s: Scheduler) -> bool {
    &&& s.running as int == count_running(s.states@)
    &&& s.running <= s.capacity
}

proof fn lemma_count_update(states: Seq<JobStatus>, i: int, v: JobStatus)
    requires
        0 <= i < states.len(),
    ensures
        count_running(states.update(i, v)) == count_running(states) + (if v == JobStatus::Running {
            1int
        } else {
            0int
        }) - (if states[i] == JobStatus::Running {
            1int
        } else {
            0int
        }),
    decreases states.len(),
{
    if i == states.len() - 1 {
        assert(states.update(i, v).drop_last() =~= states.drop_last());
        assert(states.update(i, v).last() == v);
    } else {
        lemma_count_update(states.drop_last(), i, v);
        assert(states.update(i, v).drop_last() =~= states.drop_last().update(i, v));
        assert(states.update(i, v).last() == states.last());
    }
}

impl Scheduler {
    /// A limiter over `jobs` pending jobs, at most `capacity` running at once.
    pub fn new(capacity: usize, jobs: usize) -> (r: Scheduler)
        ensures
            sched_inv(r),
            r.capacity == capacity,
            r.states@.len() == jobs,
            forall|i: int| 0 <= i < jobs ==> r.states@[i] == JobStatus::Pending,
    {
        let mut states: Vec<JobStatus> = Vec::new();
        let mut i: usize = 0;
        while i < jobs
            invariant
                0 <= i <= jobs,
                states@.len() == i,
                forall|j: int| 0 <= j < i ==> states@[j] == JobStatus::Pending,
                count_running(states@) == 0,
            decreases jobs - i,
        {
            proof {
                assert(states@.push(JobStatus::Pending).drop_last() =~= states@);
            }
            states.push(JobStatus::Pending);
            i = i + 1;
        }
        Scheduler { capacity, states, running: 0 }
    }

    /// Lets job `i` enter the running phase if the bound allows; refuses
    /// otherwise, so the count of running jobs never passes the bound.
    pub fn try_start(&mut self, i: usize) -> (granted: bool)
        requires
            sched_inv(*old(self)),
            i < old(self).states@.len(),
            old(self).states@[i as int] == JobStatus::Pending,
        ensures
            sched_inv(*final(self)),
            final(self).capacity == old(self).capacity,
            granted <==> old(self).running < old(self).capacity,
            granted ==> final(self).states@ == old(self).states@.update(
                i as int,
                JobStatus::Running,
            ) && final(self).running == old(self).running + 1,
            !granted ==> *final(self) == *old(self),
    {
        if self.running < self.capacity {
            proof {
                lemma_count_update(self.states@, i as int, JobStatus::Running);
            }
            self.states.set(i, JobStatus::Running);
            self.running = self.running + 1;
            true
        } else {
            false
        }
    }

    /// Marks running job `i` finished or failed and frees its slot.
    pub fn finish(&mut self, i: usize, failed: bool)
        requires
            sched_inv(*old(self)),
            i < old(self).states@.len(),
            old(self).states@[i as int] == JobStatus::Running,
        ensures
            sched_inv(*final(self)),
            final(self).capacity == old(self).capacity,
            final(self).states@ == old(self).states@.update(
                i as int,
                if failed {
                    JobStatus::Failed
                } else {
                    JobStatus::Finished
                },
            ),
            final(self).running == old(self).running - 1,
    {
        proof {
            lemma_count_update(
                self.states@,
                i as int,
                if failed {
                    JobStatus::Failed
                } else {
                    JobStatus::Finished
                },
            );
            assert(count_running(self.states@) >= 1) by {
                lemma_count_at_least_one(self.states@, i as int);
            }
        }
        let v = if failed {
            JobStatus::Failed
        } else {
            JobStatus::Finished
        };
        self.states.set(i, v);
        self.running = self.running - 1;
    }

    /// Puts a terminal job back to pending, for a restart.
    pub fn reset_job(&mut self, i: usize)
        requires
            sched_inv(*old(self)),
            i < old(self).states@.len(),
            old(self).states@[i as int] == JobStatus::Finished || old(self).states@[i as int]
                == JobStatus::Failed,
        ensures
            sched_inv(*final(self)),
            final(self).capacity == old(self).capacity,
            final(self).states@ == old(self).states@.update(i as int, JobStatus::Pending),
            final(self).running == old(self).running,
    {
        proof {
            lemma_count_update(self.states@, i as int, JobStatus::Pending);
        }
        self.states.set(i, JobStatus::Pending);
    }
}

proof fn lemma_count_at_least_one(states: Seq<JobStatus>, i: int)
    requires
        0 <= i < states.len(),
        states[i] == JobStatus::Running,
    ensures
        count_running(states) >= 1,
    decreases states.len(),
{
    if i == states.len() - 1 {
        assert(states.last() == JobStatus::Running);
        assert(count_running(states.drop_last()) >= 0) by {
            lemma_count_nonneg(states.drop_last());
        }
    } else {
        lemma_count_at_least_one(states.drop_last(), i);
        assert(states.drop_last()[i] == states[i]);
    }
}

proof fn lemma_count_nonneg(states: Seq<JobStatus>)
    ensures
        count_running(states) >= 0,
    decreases states.len(),
{
    if states.len() > 0 {
        lemma_count_nonneg(states.drop_last());
    }
}

/// At most the configured number of jobs are ever in the running phase at
/// once: the limiter's invariant bounds the running count by its capacity.
pub proof fn lemma_semaphore_bound(s: Scheduler)
    requires
        sched_inv(s),
    ensures
        count_running(s.states@) <= s.capacity,
{
}

} // verus!
