//! Orchestration of a batch of installations: which packages are installed
//! at all, and how many workers run at a time.

use crate::installed::{key_of, recorded, InstalledPackages};
use crate::package::{ResolvedPackage, ResolvedPackageView};
use crate::seqs::{lemma_deep_view_index, lemma_deep_view_push, lemma_filter_ends, lemma_filter_step};
use vstd::prelude::*;

verus! {

/// A batch of packages split into those to install and those to skip.
#[derive(Debug, PartialEq, Eq)]
pub struct InstallPlan {
    /// The packages to install, in the order in which they were asked for.
    pub to_install: Vec<ResolvedPackage>,
    /// The packages that are installed already and are left alone.
    pub skipped: Vec<ResolvedPackage>,
    /// The packages that are installed already and are installed again.
    pub reinstalled: Vec<ResolvedPackage>,
}

/// Splits a batch: a package that is not installed is installed; one that is
/// installed is installed again when `force` is set and skipped otherwise.
pub fn plan_installation(
    packages: &Vec<ResolvedPackage>,
    installed: &InstalledPackages,
    force: bool,
) -> (plan: InstallPlan)
    ensures
        plan.to_install.deep_view() == packages.deep_view().filter(
            |p: ResolvedPackageView| force || !recorded(installed@, key_of(p)),
        ),
        plan.skipped.deep_view() == packages.deep_view().filter(
            |p: ResolvedPackageView| !force && recorded(installed@, key_of(p)),
        ),
        plan.reinstalled.deep_view() == packages.deep_view().filter(
            |p: ResolvedPackageView| force && recorded(installed@, key_of(p)),
        ),
{
    let ghost all = packages.deep_view();
    let ghost wanted = |p: ResolvedPackageView| force || !recorded(installed@, key_of(p));
    let ghost left = |p: ResolvedPackageView| !force && recorded(installed@, key_of(p));
    let ghost again = |p: ResolvedPackageView| force && recorded(installed@, key_of(p));
    let mut to_install: Vec<ResolvedPackage> = Vec::new();
    let mut skipped: Vec<ResolvedPackage> = Vec::new();
    let mut reinstalled: Vec<ResolvedPackage> = Vec::new();
    let mut i: usize = 0;
    proof {
        lemma_filter_ends(all, wanted);
        lemma_filter_ends(all, left);
        lemma_filter_ends(all, again);
        assert(to_install.deep_view() =~= Seq::<ResolvedPackageView>::empty());
        assert(skipped.deep_view() =~= Seq::<ResolvedPackageView>::empty());
        assert(reinstalled.deep_view() =~= Seq::<ResolvedPackageView>::empty());
    }
    while i < packages.len()
        invariant
            i <= packages.len(),
            all == packages.deep_view(),
            all.len() == packages.len(),
            wanted == (|p: ResolvedPackageView| force || !recorded(installed@, key_of(p))),
            left == (|p: ResolvedPackageView| !force && recorded(installed@, key_of(p))),
            again == (|p: ResolvedPackageView| force && recorded(installed@, key_of(p))),
            to_install.deep_view() == all.take(i as int).filter(wanted),
            skipped.deep_view() == all.take(i as int).filter(left),
            reinstalled.deep_view() == all.take(i as int).filter(again),
        decreases packages.len() - i,
    {
        proof {
            lemma_deep_view_index(*packages);
            lemma_filter_step(all, wanted, i as int);
            lemma_filter_step(all, left, i as int);
            lemma_filter_step(all, again, i as int);
        }
        let present = installed.is_installed(&packages[i]);
        if present && !force {
            let p = packages[i].clone();
            let ghost before = skipped;
            skipped.push(p);
            proof {
                lemma_deep_view_push(before, skipped, p);
            }
        } else {
            let p = packages[i].clone();
            let ghost before = to_install;
            to_install.push(p);
            proof {
                lemma_deep_view_push(before, to_install, p);
            }
            if present {
                let p = packages[i].clone();
                let ghost before = reinstalled;
                reinstalled.push(p);
                proof {
                    lemma_deep_view_push(before, reinstalled, p);
                }
            }
        }
        i += 1;
    }
    proof {
        lemma_filter_ends(all, wanted);
        lemma_filter_ends(all, left);
        lemma_filter_ends(all, again);
    }
    InstallPlan { to_install, skipped, reinstalled }
}

/// The number of workers that may run at a time: one when installations are
/// not to run in parallel, else the configured limit, four where none is
/// configured, and never less than one.
pub open spec fn worker_limit(parallel: Option<bool>, parallel_limit: Option<u32>) -> nat {
    if parallel == Some(false) {
        1
    } else {
        match parallel_limit {
            Some(n) => if n == 0 {
                1
            } else {
                n as nat
            },
            None => 4,
        }
    }
}

/// The number of workers that may run at a time under the given settings.
pub fn effective_worker_limit(parallel: Option<bool>, parallel_limit: Option<u32>) -> (r: u32)
    ensures
        r == worker_limit(parallel, parallel_limit),
        r >= 1,
{
    match parallel {
        Some(false) => 1,
        _ => match parallel_limit {
            Some(n) => if n == 0 {
                1
            } else {
                n
            },
            None => 4,
        },
    }
}

/// The bookkeeping of a bounded pool of workers: jobs `0 .. total` are
/// started in order, never more than `limit` at a time.
#[derive(Debug, PartialEq, Eq)]
pub struct WorkerPool {
    limit: u32,
    total: usize,
    started: usize,
    finished: usize,
    succeeded: usize,
}

/// Mathematical model of a [`WorkerPool`].
pub struct WorkerPoolView {
    pub limit: nat,
    pub total: nat,
    pub started: nat,
    pub finished: nat,
    pub succeeded: nat,
}

impl View for WorkerPool {
    type V = WorkerPoolView;

    closed spec fn view(&self) -> WorkerPoolView {
        WorkerPoolView {
            limit: self.limit as nat,
            total: self.total as nat,
            started: self.started as nat,
            finished: self.finished as nat,
            succeeded: self.succeeded as nat,
        }
    }
}

/// The number of workers of a pool that are running.
pub open spec fn running(pool: WorkerPoolView) -> int {
    pool.started - pool.finished
}

/// The invariant of a pool: no more workers run than the limit allows, and
/// the counts fit together.
pub open spec fn pool_ok(pool: WorkerPoolView) -> bool {
    &&& pool.limit >= 1
    &&& pool.succeeded <= pool.finished <= pool.started <= pool.total
    &&& running(pool) <= pool.limit
}

impl WorkerPool {
    /// Whether the pool keeps to its bound.
    pub open spec fn wf(&self) -> bool {
        pool_ok(self@)
    }

    /// A pool for `total` jobs of which at most `limit` run at a time. A limit
    /// of zero counts as one.
    pub fn new(total: usize, limit: u32) -> (r: Self)
        ensures
            r.wf(),
            r@ == (WorkerPoolView {
                limit: if limit == 0 {
                    1
                } else {
                    limit as nat
                },
                total: total as nat,
                started: 0,
                finished: 0,
                succeeded: 0,
            }),
    {
        WorkerPool {
            limit: if limit == 0 {
                1
            } else {
                limit
            },
            total,
            started: 0,
            finished: 0,
            succeeded: 0,
        }
    }

    /// Starts the next job if one is left and a worker is free, and returns
    /// its number.
    pub fn try_start(&mut self) -> (r: Option<usize>)
        requires
            old(self).wf(),
        ensures
            final(self).wf(),
            match r {
                Some(job) => {
                    &&& job == old(self)@.started
                    &&& old(self)@.started < old(self)@.total
                    &&& running(old(self)@) < old(self)@.limit
                    &&& final(self)@ == (WorkerPoolView { started: old(self)@.started + 1, ..old(self)@ })
                },
                None => {
                    &&& (old(self)@.started == old(self)@.total || running(old(self)@) == old(
                        self,
                    )@.limit)
                    &&& final(self)@ == old(self)@
                },
            },
    {
        if self.started < self.total && self.started - self.finished < self.limit as usize {
            let job = self.started;
            self.started = self.started + 1;
            Some(job)
        } else {
            None
        }
    }

    /// Takes note that a running job ended. Returns `false`, and changes
    /// nothing, when no job is running.
    pub fn complete(&mut self, success: bool) -> (r: bool)
        requires
            old(self).wf(),
        ensures
            final(self).wf(),
            r == (running(old(self)@) > 0),
            r ==> final(self)@ == (WorkerPoolView {
                finished: old(self)@.finished + 1,
                succeeded: if success {
                    old(self)@.succeeded + 1
                } else {
                    old(self)@.succeeded
                },
                ..old(self)@
            }),
            !r ==> final(self)@ == old(self)@,
    {
        if self.finished < self.started {
            self.finished = self.finished + 1;
            if success {
                self.succeeded = self.succeeded + 1;
            }
            true
        } else {
            false
        }
    }

    /// The number of jobs that are running.
    pub fn running(&self) -> (r: usize)
        requires
            self.wf(),
        ensures
            r == running(self@),
            r <= self@.limit,
    {
        self.started - self.finished
    }

    /// Whether every job ended.
    pub fn is_done(&self) -> (r: bool)
        ensures
            r == (self@.finished == self@.total),
    {
        self.finished == self.total
    }

    /// The numbers of jobs that succeeded and of jobs in all, as the summary
    /// `Installed X/Y packages` states them.
    pub fn summary(&self) -> (r: (usize, usize))
        ensures
            r.0 == self@.succeeded,
            r.1 == self@.total,
    {
        (self.succeeded, self.total)
    }
}

} // verus!
