//! Which due job is claimed: the class decides first, then how long a job has been due.

use crate::inspection::JobState;
use crate::jobs::claim::{class_of, classify};
use crate::jobs::model::{ClaimClass, JobRow};
use crate::jobs::policy::{lemma_order_complete, order_from};
use crate::jobs::transitions::{job_step, JobStep};
use crate::metainfo::identity::InfoHashV1;
use crate::order::{bytes_before, bytes_less, lemma_bytes_irreflexive, lemma_bytes_transitive};
use vstd::prelude::*;

verus! {

/// A job that may be claimed, with what its class depends on.
#[derive(Clone, Copy, Debug, PartialEq, Eq)]
pub struct Candidate {
    pub hash: InfoHashV1,
    pub row: JobRow,
    pub first_seen: i64,
    /// Whether some address is valid and allowed.
    pub hinted: bool,
}

impl Candidate {
    /// The class of the job.
    pub open spec fn class_at(self, now: i64) -> ClaimClass {
        class_of(self.row.generation, self.hinted, self.first_seen, now)
    }

    /// Whether the job is due, and of this class where one is given.
    pub open spec fn fits(self, class: Option<ClaimClass>, now: i64) -> bool {
        self.row.is_due(now) && (class is Some ==> self.class_at(now) == class->0)
    }

    /// Whether the job comes before another: it has been due for longer, or for as long and has the
    /// smaller hash.
    pub open spec fn before(self, other: Candidate) -> bool {
        ||| self.row.due_at < other.row.due_at
        ||| self.row.due_at == other.row.due_at && bytes_before(self.hash.0@, other.hash.0@)
    }

    /// The class of the job.
    pub fn class(&self, now: i64) -> (class: ClaimClass)
        ensures
            class == self.class_at(now),
    {
        classify(self.row.generation, self.hinted, self.first_seen, now)
    }

    fn is_fit(&self, class: Option<ClaimClass>, now: i64) -> (fit: bool)
        ensures
            fit == self.fits(class, now),
    {
        let waiting = self.row.state == JobState::Pending || self.row.state == JobState::RetryWait;
        if !waiting || self.row.due_at > now {
            return false;
        }
        match class {
            Some(class) => self.class(now) == class,
            None => true,
        }
    }

    fn is_before(&self, other: &Candidate) -> (before: bool)
        ensures
            before == self.before(*other),
    {
        self.row.due_at < other.row.due_at || (self.row.due_at == other.row.due_at && bytes_less(
            vstd::array::array_as_slice(&self.hash.0),
            vstd::array::array_as_slice(&other.hash.0),
        ))
    }
}

/// The first of the due jobs of a class, or of all.
pub open spec fn first_due(jobs: Seq<Candidate>, class: Option<ClaimClass>, now: i64) -> Option<int>
    decreases jobs.len(),
{
    if jobs.len() == 0 {
        None
    } else {
        let rest = first_due(jobs.drop_last(), class, now);
        if !jobs.last().fits(class, now) {
            rest
        } else {
            match rest {
                Some(i) => if jobs.last().before(jobs[i]) {
                    Some(jobs.len() - 1)
                } else {
                    rest
                },
                None => Some(jobs.len() - 1),
            }
        }
    }
}

/// The job that is claimed where the classes are asked in this order.
pub open spec fn first_by_order(jobs: Seq<Candidate>, order: Seq<ClaimClass>, now: i64) -> Option<int>
    decreases order.len(),
{
    if order.len() == 0 {
        None
    } else {
        match first_due(jobs, Some(order[0]), now) {
            Some(i) => Some(i),
            None => first_by_order(jobs, order.drop_first(), now),
        }
    }
}

/// The job that is claimed: by the order of the classes, or without one by the time alone.
pub open spec fn chosen(jobs: Seq<Candidate>, order: Option<Seq<ClaimClass>>, now: i64) -> Option<int> {
    match order {
        Some(order) => first_by_order(jobs, order, now),
        None => first_due(jobs, None, now),
    }
}

/// The first of the due jobs is due and of the class, and no other such job comes before it. There is
/// none where no job is due.
pub proof fn lemma_first_due(jobs: Seq<Candidate>, class: Option<ClaimClass>, now: i64)
    ensures
        match first_due(jobs, class, now) {
            Some(i) => {
                &&& 0 <= i < jobs.len()
                &&& jobs[i].fits(class, now)
                &&& forall|k: int|
                    0 <= k < jobs.len() && (#[trigger] jobs[k]).fits(class, now)
                        ==> !jobs[k].before(jobs[i])
            },
            None => forall|k: int|
                0 <= k < jobs.len() ==> !(#[trigger] jobs[k]).fits(class, now),
        },
    decreases jobs.len(),
{
    if jobs.len() > 0 {
        let rest = jobs.drop_last();
        lemma_first_due(rest, class, now);
        assert forall|k: int| 0 <= k < rest.len() implies jobs[k] == #[trigger] rest[k] by {}
        match first_due(jobs, class, now) {
            Some(i) => {
                assert forall|k: int|
                    0 <= k < jobs.len() && (#[trigger] jobs[k]).fits(class, now) implies !jobs[k].before(
                    jobs[i],
                ) by {
                    if k < rest.len() {
                        assert(rest[k].fits(class, now));
                        let first = first_due(rest, class, now);
                        assert(first is Some);
                        assert(!rest[k].before(rest[first->0]));
                        if i == jobs.len() - 1 && jobs[k].before(jobs[i]) {
                            lemma_before_transitive(jobs[k], jobs[i], rest[first->0]);
                        }
                    } else {
                        lemma_before_irreflexive(jobs[k]);
                    }
                }
            },
            None => {
                assert forall|k: int| 0 <= k < jobs.len() implies !(#[trigger] jobs[k]).fits(
                    class,
                    now,
                ) by {
                    if k < rest.len() {
                        assert(!rest[k].fits(class, now));
                    }
                }
            },
        }
    }
}

proof fn lemma_before_transitive(a: Candidate, b: Candidate, c: Candidate)
    requires
        a.before(b),
        b.before(c),
    ensures
        a.before(c),
{
    if a.row.due_at == b.row.due_at && b.row.due_at == c.row.due_at {
        lemma_bytes_transitive(a.hash.0@, b.hash.0@, c.hash.0@);
    }
}

proof fn lemma_before_irreflexive(a: Candidate)
    ensures
        !a.before(a),
{
    lemma_bytes_irreflexive(a.hash.0@);
}

/// The job that is claimed is of the first class in the order that has a due job.
pub proof fn lemma_first_by_order(jobs: Seq<Candidate>, order: Seq<ClaimClass>, now: i64)
    ensures
        match first_by_order(jobs, order, now) {
            Some(i) => {
                &&& 0 <= i < jobs.len()
                &&& jobs[i].row.is_due(now)
                &&& exists|n: int|
                    {
                        &&& 0 <= n < order.len()
                        &&& #[trigger] order[n] == jobs[i].class_at(now)
                        &&& first_due(jobs, Some(order[n]), now) == Some(i)
                        &&& forall|m: int|
                            0 <= m < n ==> first_due(jobs, Some(#[trigger] order[m]), now) is None
                    }
            },
            None => forall|m: int|
                0 <= m < order.len() ==> first_due(jobs, Some(#[trigger] order[m]), now) is None,
        },
    decreases order.len(),
{
    if order.len() > 0 {
        lemma_first_due(jobs, Some(order[0]), now);
        if first_due(jobs, Some(order[0]), now) is None {
            let rest = order.drop_first();
            lemma_first_by_order(jobs, rest, now);
            match first_by_order(jobs, rest, now) {
                Some(i) => {
                    let n = choose|n: int|
                        {
                            &&& 0 <= n < rest.len()
                            &&& #[trigger] rest[n] == jobs[i].class_at(now)
                            &&& first_due(jobs, Some(rest[n]), now) == Some(i)
                            &&& forall|m: int|
                                0 <= m < n ==> first_due(jobs, Some(#[trigger] rest[m]), now)
                                    is None
                        };
                    assert(order[n + 1] == rest[n]);
                    assert forall|m: int| 0 <= m < n + 1 implies first_due(
                        jobs,
                        Some(#[trigger] order[m]),
                        now,
                    ) is None by {
                        if m > 0 {
                            assert(rest[m - 1] == order[m]);
                        }
                    }
                },
                None => {
                    assert forall|m: int| 0 <= m < order.len() implies first_due(
                        jobs,
                        Some(#[trigger] order[m]),
                        now,
                    ) is None by {
                        if m > 0 {
                            assert(rest[m - 1] == order[m]);
                        }
                    }
                },
            }
        } else {
            assert(order[0] == jobs[first_due(jobs, Some(order[0]), now)->0].class_at(now));
        }
    }
}

/// An empty class lends its turn: whatever class is preferred, some job is claimed exactly where
/// some job is due.
pub proof fn lemma_turn_is_lent(jobs: Seq<Candidate>, preferred: ClaimClass, now: i64)
    ensures
        first_by_order(jobs, order_from(preferred), now) is Some == (exists|k: int|
            0 <= k < jobs.len() && (#[trigger] jobs[k]).row.is_due(now)),
{
    let order = order_from(preferred);
    lemma_order_complete(preferred);
    lemma_first_by_order(jobs, order, now);
    if first_by_order(jobs, order, now) is None {
        assert forall|k: int| 0 <= k < jobs.len() implies !(#[trigger] jobs[k]).row.is_due(now) by {
            let class = jobs[k].class_at(now);
            assert(order.contains(class));
            let m = choose|m: int| 0 <= m < order.len() && order[m] == class;
            assert(first_due(jobs, Some(order[m]), now) is None);
            lemma_first_due(jobs, Some(class), now);
            assert(!jobs[k].fits(Some(class), now));
        }
    }
}

/// Finds the first of the due jobs of a class, or of all.
pub fn find_due(jobs: &Vec<Candidate>, class: Option<ClaimClass>, now: i64) -> (found: Option<usize>)
    ensures
        match first_due(jobs@, class, now) {
            Some(i) => found is Some && found->0 == i && 0 <= i < jobs@.len(),
            None => found is None,
        },
{
    let mut found: Option<usize> = None;
    for i in 0..jobs.len()
        invariant
            match first_due(jobs@.take(i as int), class, now) {
                Some(k) => found is Some && found->0 == k && 0 <= k < i,
                None => found is None,
            },
    {
        proof {
            assert(jobs@.take(i + 1).drop_last() =~= jobs@.take(i as int));
            assert(jobs@.take(i + 1).last() == jobs@[i as int]);
        }
        if jobs[i].is_fit(class, now) {
            match found {
                Some(k) => {
                    if jobs[i].is_before(&jobs[k]) {
                        found = Some(i);
                    }
                },
                None => {
                    found = Some(i);
                },
            }
        }
    }
    assert(jobs@.take(jobs@.len() as int) =~= jobs@);
    found
}

/// Claims the job that comes first: by the order of the classes, which stops at the first class with
/// a due job, or without an order by the time alone. All other jobs stay as they are.
pub fn claim_order(jobs: &mut Vec<Candidate>, order: Option<[ClaimClass; 4]>, now: i64) -> (claimed:
    Option<usize>)
    requires
        forall|k: int| 0 <= k < old(jobs)@.len() ==> (#[trigger] old(jobs)@[k]).row.generation < i64::MAX,
    ensures
        match chosen(
            old(jobs)@,
            match order {
                Some(order) => Some(order@),
                None => None,
            },
            now,
        ) {
            Some(i) => {
                &&& claimed is Some && claimed->0 == i
                &&& 0 <= i < old(jobs)@.len()
                &&& final(jobs)@ == old(jobs)@.update(
                    i,
                    Candidate {
                        row: job_step(old(jobs)@[i].row, JobStep::Claim(now)),
                        ..old(jobs)@[i]
                    },
                )
            },
            None => claimed is None && final(jobs)@ == old(jobs)@,
        },
{
    let ghost before = jobs@;
    let mut found: Option<usize> = None;
    match order {
        Some(order) => {
            let mut n: usize = 0;
            proof {
                assert(order@.skip(0) =~= order@);
            }
            while n < 4 && found.is_none()
                invariant
                    n <= 4,
                    order@.len() == 4,
                    before == jobs@,
                    match found {
                        Some(i) => first_by_order(jobs@, order@, now) == Some(i as int) && i
                            < jobs@.len(),
                        None => first_by_order(jobs@, order@, now) == first_by_order(
                            jobs@,
                            order@.skip(n as int),
                            now,
                        ),
                    },
                decreases 4 - n,
            {
                proof {
                    assert(order@.skip(n as int)[0] == order@[n as int]);
                    assert(order@.skip(n as int).drop_first() =~= order@.skip(n + 1));
                }
                found = find_due(jobs, Some(order[n]), now);
                n += 1;
            }
            assert(order@.skip(4).len() == 0);
        },
        None => {
            found = find_due(jobs, None, now);
        },
    }
    if let Some(i) = found {
        let mut job = jobs[i];
        let _ = job.row.claim(now);
        jobs.set(i, job);
    }
    found
}

/// The job that is claimed without a preference waits for its turn, is due, and no other due job was
/// due earlier, or at the same time with a hash that sorts before its own. There is none only where
/// no job is due.
pub proof fn lemma_earliest_claimed(jobs: Seq<Candidate>, now: i64)
    ensures
        match chosen(jobs, None, now) {
            Some(i) => {
                &&& 0 <= i < jobs.len()
                &&& jobs[i].row.state is Pending || jobs[i].row.state is RetryWait
                &&& jobs[i].row.due_at <= now
                &&& forall|k: int|
                    0 <= k < jobs.len() && ((#[trigger] jobs[k]).row.state is Pending
                        || jobs[k].row.state is RetryWait) && jobs[k].row.due_at <= now ==> {
                        &&& jobs[i].row.due_at <= jobs[k].row.due_at
                        &&& jobs[k].row.due_at == jobs[i].row.due_at ==> !bytes_before(
                            jobs[k].hash.0@,
                            jobs[i].hash.0@,
                        )
                    }
            },
            None => forall|k: int|
                0 <= k < jobs.len() && ((#[trigger] jobs[k]).row.state is Pending
                    || jobs[k].row.state is RetryWait) ==> jobs[k].row.due_at > now,
        },
{
    lemma_first_due(jobs, None, now);
    assert forall|k: int|
        0 <= k < jobs.len() && ((#[trigger] jobs[k]).row.state is Pending
            || jobs[k].row.state is RetryWait) && jobs[k].row.due_at <= now implies jobs[k].fits(
        None,
        now,
    ) by {}
}

/// Where classes are asked in an order, what is claimed waits for its turn, is due and of a class that
/// was asked.
pub proof fn lemma_claimed_is_due(jobs: Seq<Candidate>, order: Seq<ClaimClass>, now: i64)
    ensures
        chosen(jobs, Some(order), now) matches Some(i) ==> {
            &&& 0 <= i < jobs.len()
            &&& jobs[i].row.state is Pending || jobs[i].row.state is RetryWait
            &&& jobs[i].row.due_at <= now
            &&& order.contains(jobs[i].class_at(now))
        },
{
    lemma_first_by_order(jobs, order, now);
}

/// Where a job waits and is due and its class is asked, a job is claimed: one of a class that is
/// asked no later, and of the same class only one that was due no later.
pub proof fn lemma_claimed_in_order(
    jobs: Seq<Candidate>,
    order: Seq<ClaimClass>,
    now: i64,
    k: int,
    m: int,
)
    requires
        0 <= k < jobs.len(),
        0 <= m < order.len(),
        jobs[k].row.state is Pending || jobs[k].row.state is RetryWait,
        jobs[k].row.due_at <= now,
        jobs[k].class_at(now) == order[m],
    ensures
        chosen(jobs, Some(order), now) is Some,
        ({
            let first = jobs[chosen(jobs, Some(order), now)->0];
            &&& exists|n: int| 0 <= n <= m && #[trigger] order[n] == first.class_at(now)
            &&& first.class_at(now) == order[m] ==> first.row.due_at <= jobs[k].row.due_at
        }),
    decreases m,
{
    lemma_first_due(jobs, Some(order[0]), now);
    if m == 0 {
        assert(jobs[k].fits(Some(order[0]), now));
    } else if first_due(jobs, Some(order[0]), now) is None {
        let rest = order.drop_first();
        lemma_claimed_in_order(jobs, rest, now, k, m - 1);
        let first = jobs[chosen(jobs, Some(rest), now)->0];
        let n = choose|n: int| 0 <= n <= m - 1 && #[trigger] rest[n] == first.class_at(now);
        assert(order[n + 1] == first.class_at(now));
    } else if order[0] == order[m] {
        assert(jobs[k].fits(Some(order[0]), now));
    }
}

/// The class of a job goes by its own claims, its hints and when its hash was first seen.
pub proof fn lemma_class_at(job: Candidate, now: i64)
    ensures
        ({
            let recent = 0 <= now - job.first_seen <= 30 * 60 * 1000;
            &&& job.class_at(now) is Retry <==> job.row.generation > 0
            &&& job.class_at(now) is Hint <==> job.row.generation <= 0 && job.hinted
            &&& job.class_at(now) is Recent <==> job.row.generation <= 0 && !job.hinted && recent
        }),
{
}

} // verus!
