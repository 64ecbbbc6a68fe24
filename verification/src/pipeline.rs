//! Running one task for each item of a list, a bounded number of them at a time.
//!
//! The pipeline decides which item starts next and what the run ends in; the caller
//! starts the tasks and reports each one that has ended.
use vstd::prelude::*;

verus! {

/// Where a run stands.
#[derive(Debug, Clone, Copy, PartialEq, Eq, Structural)]
pub enum Status {
    /// Tasks are still to start or to end.
    Running,
    /// Every task has ended well.
    Done,
    /// A task has failed: the run ends with its failure, whatever else still runs.
    Failed,
}

/// The schedule of one run over `total` items, with failures of type `E`.
pub struct Pipeline<E> {
    total: usize,
    limit: usize,
    started: usize,
    finished: usize,
    failure: Option<E>,
}

impl<E> Pipeline<E> {
    #[verifier::type_invariant]
    spec fn well_formed(self) -> bool {
        &&& self.finished <= self.started <= self.total
        &&& self.limit > 0 ==> self.started - self.finished <= self.limit
    }

    /// The number of items.
    pub closed spec fn total(&self) -> nat {
        self.total as nat
    }

    /// The number of tasks that may run at the same time; 0 where any number may.
    pub closed spec fn limit(&self) -> nat {
        self.limit as nat
    }

    /// The number of tasks that were started. Items start in their order, so this is
    /// also the place of the item that starts next.
    pub closed spec fn started(&self) -> nat {
        self.started as nat
    }

    /// The number of tasks that have ended.
    pub closed spec fn finished(&self) -> nat {
        self.finished as nat
    }

    /// The failure of the first task that was reported as failed.
    pub closed spec fn failure(&self) -> Option<E> {
        self.failure
    }

    /// The number of tasks that run.
    pub open spec fn running(&self) -> int {
        self.started() - self.finished()
    }

    /// Whether no more tasks run than may, and none more were started than there are
    /// items. This holds of every schedule.
    pub open spec fn bounded(&self) -> bool {
        &&& self.finished() <= self.started() <= self.total()
        &&& self.limit() > 0 ==> self.running() <= self.limit()
    }

    /// Whether a task may start now: no task has failed, an item is left, and fewer
    /// tasks run than may.
    pub open spec fn may_start(&self) -> bool {
        &&& self.failure() is None
        &&& self.started() < self.total()
        &&& self.limit() > 0 ==> self.running() < self.limit()
    }

    /// Where the run stands.
    pub open spec fn state(&self) -> Status {
        if self.failure() is Some {
            Status::Failed
        } else if self.finished() == self.total() {
            Status::Done
        } else {
            Status::Running
        }
    }

    /// The schedule of a run over `total` items with at most `concurrency_limit` tasks
    /// at a time. Without a limit, or with the limit 0, any number may run.
    pub fn new(total: usize, concurrency_limit: Option<usize>) -> (p: Self)
        ensures
            p.total() == total,
            p.limit() == (match concurrency_limit {
                Some(n) => n,
                None => 0,
            }),
            p.started() == 0,
            p.finished() == 0,
            p.failure() is None,
            p.bounded(),
    {
        let limit = match concurrency_limit {
            Some(n) => n,
            None => 0,
        };
        Pipeline { total, limit, started: 0, finished: 0, failure: None }
    }

    /// Starts the next item, if a task may start now, and gives its place.
    pub fn start_next(&mut self) -> (r: Option<usize>)
        ensures
            final(self).bounded(),
            final(self).total() == old(self).total(),
            final(self).limit() == old(self).limit(),
            final(self).finished() == old(self).finished(),
            final(self).failure() == old(self).failure(),
            match r {
                Some(i) => old(self).may_start() && i == old(self).started() && final(self).started() == old(self).started() + 1,
                None => !old(self).may_start() && final(self).started() == old(self).started(),
            },
    {
        proof {
            use_type_invariant(&*self);
        }
        if self.failure.is_some() || self.started >= self.total {
            return None;
        }
        if self.limit > 0 && self.started - self.finished >= self.limit {
            return None;
        }
        let i = self.started;
        let mut taken = Pipeline {
            total: self.total,
            limit: self.limit,
            started: i + 1,
            finished: self.finished,
            failure: None,
        };
        core::mem::swap(self, &mut taken);
        Some(i)
    }

    /// Takes note that a task has ended. The first failure that is reported is kept
    /// as the failure of the run. The answer says whether the progress moves on by
    /// one item's share: it does for each task that ended well. A report without a
    /// running task changes nothing.
    pub fn complete(&mut self, outcome: Result<(), E>) -> (advance: bool)
        ensures
            final(self).bounded(),
            final(self).total() == old(self).total(),
            final(self).limit() == old(self).limit(),
            final(self).started() == old(self).started(),
            old(self).running() == 0 ==> !advance && final(self).finished() == old(self).finished() && final(self).failure() == old(self).failure(),
            old(self).running() > 0 ==> {
                &&& advance == (outcome is Ok)
                &&& final(self).finished() == old(self).finished() + 1
                &&& final(self).failure() == (if old(self).failure() is None && outcome is Err {
                    Some(outcome->Err_0)
                } else {
                    old(self).failure()
                })
            },
    {
        proof {
            use_type_invariant(&*self);
        }
        if self.started == self.finished {
            return false;
        }
        let mut taken = Pipeline {
            total: self.total,
            limit: self.limit,
            started: self.started,
            finished: self.finished + 1,
            failure: None,
        };
        core::mem::swap(self, &mut taken);
        let Pipeline { total, limit, started, finished, failure } = taken;
        match outcome {
            Ok(_) => {
                self.put_failure(failure);
                true
            },
            Err(e) => {
                match failure {
                    Some(first) => {
                        self.put_failure(Some(first));
                    },
                    None => {
                        self.put_failure(Some(e));
                    },
                }
                false
            },
        }
    }

    fn put_failure(&mut self, failure: Option<E>)
        ensures
            final(self).total == old(self).total,
            final(self).limit == old(self).limit,
            final(self).started == old(self).started,
            final(self).finished == old(self).finished,
            final(self).failure == failure,
    {
        proof {
            use_type_invariant(&*self);
        }
        let mut taken = Pipeline {
            total: self.total,
            limit: self.limit,
            started: self.started,
            finished: self.finished,
            failure,
        };
        core::mem::swap(self, &mut taken);
    }

    /// Where the run stands.
    pub fn status(&self) -> (s: Status)
        ensures
            s == self.state(),
            self.bounded(),
    {
        proof {
            use_type_invariant(self);
        }
        if self.failure.is_some() {
            Status::Failed
        } else if self.finished == self.total {
            Status::Done
        } else {
            Status::Running
        }
    }

    /// The number of tasks that run.
    pub fn running_now(&self) -> (n: usize)
        ensures
            n == self.running(),
            self.bounded(),
    {
        proof {
            use_type_invariant(self);
        }
        self.started - self.finished
    }

    /// The end of the run: the failure of the first task that failed, or nothing
    /// where none has.
    pub fn into_result(self) -> (r: Result<(), E>)
        ensures
            match r {
                Ok(_) => self.failure() is None,
                Err(e) => self.failure() == Some(e),
            },
    {
        match self.failure {
            Some(e) => Err(e),
            None => Ok(()),
        }
    }
}

} // verus!
