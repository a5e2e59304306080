//! Bounded concurrency: many independent operations, of which at most a
//! fixed number run at the same time.
//!
//! The pipeline decides and keeps the books; whoever drives it starts the
//! operations it hands out and reports each one's outcome when it ends, in
//! whatever order that happens.

use vstd::prelude::*;

verus! {

/// Where one operation stands.
#[derive(Debug, Clone, Copy, PartialEq, Eq, Structural)]
pub enum Slot {
    /// Not started yet.
    Waiting,
    /// Started and not ended.
    InFlight,
    /// Ended well; its value is in the success bucket.
    Succeeded,
    /// Ended badly; its error is in the failure bucket.
    Failed,
}

/// How many of the operations stand at `what`.
pub open spec fn count(slots: Seq<Slot>, what: Slot) -> nat
    decreases slots.len(),
{
    if slots.len() == 0 {
        0
    } else {
        count(slots.drop_last(), what) + if slots.last() == what {
            1nat
        } else {
            0nat
        }
    }
}

/// The operations of a bucket, in the order they ended.
pub open spec fn bucket_ids<T>(bucket: Seq<(usize, T)>) -> Seq<usize> {
    Seq::new(bucket.len(), |k: int| bucket[k].0)
}

/// Whether a bucket holds exactly the operations that stand at `what`,
/// each of them once.
pub open spec fn bucket_holds(ids: Seq<usize>, slots: Seq<Slot>, what: Slot) -> bool {
    &&& forall|k: int| 0 <= k < ids.len() ==> (#[trigger] ids[k]) < slots.len() && slots[ids[k] as int] == what
    &&& forall|j: int, k: int| 0 <= j < k < ids.len() ==> #[trigger] ids[j] != #[trigger] ids[k]
    &&& forall|i: int|
        0 <= i < slots.len() && #[trigger] slots[i] == what ==> exists|k: int|
            0 <= k < ids.len() && #[trigger] ids[k] == i
}

/// Moving one operation to another standing takes one from the count of
/// the old standing and adds one to the count of the new.
pub proof fn lemma_count_update(slots: Seq<Slot>, i: int, to: Slot, what: Slot)
    requires
        0 <= i < slots.len(),
    ensures
        count(slots.update(i, to), what) + (if slots[i] == what {
            1nat
        } else {
            0nat
        }) == count(slots, what) + (if to == what {
            1nat
        } else {
            0nat
        }),
    decreases slots.len(),
{
    let moved = slots.update(i, to);
    if i == slots.len() - 1 {
        assert(moved.drop_last() =~= slots.drop_last());
    } else {
        assert(moved.drop_last() =~= slots.drop_last().update(i, to));
        lemma_count_update(slots.drop_last(), i, to, what);
    }
}

/// No operation of a list that holds only waiting ones is in flight.
pub proof fn lemma_count_absent(slots: Seq<Slot>, what: Slot)
    requires
        forall|i: int| 0 <= i < slots.len() ==> #[trigger] slots[i] != what,
    ensures
        count(slots, what) == 0,
    decreases slots.len(),
{
    if slots.len() > 0 {
        assert forall|i: int| 0 <= i < slots.drop_last().len() implies #[trigger] slots.drop_last()[i]
            != what by {
            assert(slots.drop_last()[i] == slots[i]);
        }
        lemma_count_absent(slots.drop_last(), what);
    }
}

/// The books of a run: the operations are numbered from zero, started in
/// that order, and sorted into two buckets as they end.
pub struct Pipeline<S, E> {
    limit: usize,
    slots: Vec<Slot>,
    next: usize,
    in_flight: usize,
    successes: Vec<(usize, S)>,
    failures: Vec<(usize, E)>,
}

impl<S, E> Pipeline<S, E> {
    /// How many operations there are.
    pub open spec fn total(&self) -> nat {
        self.slots().len()
    }

    /// How many operations may be in flight at the same time.
    pub closed spec fn limit(&self) -> nat {
        self.limit as nat
    }

    /// How many operations have been started; they are the first so many.
    pub closed spec fn started(&self) -> nat {
        self.next as nat
    }

    /// How many operations are in flight.
    pub closed spec fn in_flight(&self) -> nat {
        self.in_flight as nat
    }

    /// Where each operation stands.
    pub closed spec fn slots(&self) -> Seq<Slot> {
        self.slots@
    }

    /// The operations that ended well, with their values, in the order
    /// they ended.
    pub closed spec fn successes(&self) -> Seq<(usize, S)> {
        self.successes@
    }

    /// The operations that ended badly, with their errors, in the order
    /// they ended.
    pub closed spec fn failures(&self) -> Seq<(usize, E)> {
        self.failures@
    }

    /// Whether the books are in order.
    pub closed spec fn wf(&self) -> bool {
        &&& self.limit > 0
        &&& self.next <= self.slots@.len()
        &&& forall|i: int| self.next <= i < self.slots@.len() ==> self.slots@[i] == Slot::Waiting
        &&& forall|i: int| 0 <= i < self.next ==> self.slots@[i] != Slot::Waiting
        &&& self.in_flight == count(self.slots@, Slot::InFlight)
        &&& self.in_flight <= self.limit
        &&& self.successes@.len() + self.failures@.len() + self.in_flight == self.next
        &&& bucket_holds(bucket_ids(self.successes@), self.slots@, Slot::Succeeded)
        &&& bucket_holds(bucket_ids(self.failures@), self.slots@, Slot::Failed)
    }

    /// Whether every operation has ended.
    pub open spec fn done(&self) -> bool {
        self.started() == self.total() && self.in_flight() == 0
    }

    /// The books of a run of `total` operations, of which at most `limit`
    /// are in flight at the same time. A limit of zero lets nothing run and
    /// is refused.
    pub fn new(total: usize, limit: usize) -> (made: Option<Self>)
        ensures
            made is Some <==> limit > 0,
            made matches Some(p) ==> p.wf() && p.total() == total && p.limit() == limit
                && p.started() == 0 && p.in_flight() == 0 && p.successes().len() == 0
                && p.failures().len() == 0 && forall|i: int|
                0 <= i < total ==> p.slots()[i] == Slot::Waiting,
    {
        if limit == 0 {
            return None;
        }
        let mut slots: Vec<Slot> = Vec::new();
        let mut i: usize = 0;
        while i < total
            invariant
                i <= total,
                slots@.len() == i,
                forall|k: int| 0 <= k < i ==> slots@[k] == Slot::Waiting,
            decreases total - i,
        {
            slots.push(Slot::Waiting);
            i = i + 1;
        }
        proof {
            lemma_count_absent(slots@, Slot::InFlight);
        }
        Some(
            Pipeline {
                limit: limit,
                slots: slots,
                next: 0,
                in_flight: 0,
                successes: Vec::new(),
                failures: Vec::new(),
            },
        )
    }

    /// Whether every operation has ended.
    pub fn is_done(&self) -> (done: bool)
        ensures
            done == self.done(),
    {
        self.next == self.slots.len() && self.in_flight == 0
    }

    /// How many operations are in flight: never more than the limit.
    pub fn running(&self) -> (n: usize)
        requires
            self.wf(),
        ensures
            n == self.in_flight(),
            n <= self.limit(),
            n == count(self.slots(), Slot::InFlight),
    {
        self.in_flight
    }

    /// Starts the next operation, where one waits and the limit leaves
    /// room: the operation's number is handed out, and it is in flight from
    /// then on.
    pub fn start(&mut self) -> (started: Option<usize>)
        requires
            old(self).wf(),
        ensures
            final(self).wf(),
            final(self).total() == old(self).total(),
            final(self).limit() == old(self).limit(),
            final(self).successes() == old(self).successes(),
            final(self).failures() == old(self).failures(),
            started is Some <==> old(self).in_flight() < old(self).limit() && old(self).started()
                < old(self).total(),
            started matches Some(id) ==> id == old(self).started() && final(self).started() == id
                + 1 && final(self).in_flight() == old(self).in_flight() + 1 && final(self).slots()
                == old(self).slots().update(id as int, Slot::InFlight),
            started is None ==> final(self).started() == old(self).started(),
            started is None ==> final(self).in_flight() == old(self).in_flight(),
            started is None ==> final(self).slots() == old(self).slots(),
    {
        if self.in_flight < self.limit && self.next < self.slots.len() {
            let id = self.next;
            proof {
                lemma_count_update(self.slots@, id as int, Slot::InFlight, Slot::InFlight);
            }
            self.slots.set(id, Slot::InFlight);
            self.next = id + 1;
            self.in_flight = self.in_flight + 1;
            proof {
                let before = old(self).slots@;
                lemma_bucket_keeps(
                    bucket_ids(self.successes@),
                    before,
                    Slot::Succeeded,
                    id,
                    Slot::InFlight,
                );
                lemma_bucket_keeps(
                    bucket_ids(self.failures@),
                    before,
                    Slot::Failed,
                    id,
                    Slot::InFlight,
                );
            }
            Some(id)
        } else {
            None
        }
    }

    /// Takes the outcome of an operation that is in flight: the operation
    /// leaves the flight, and its value or its error goes to the end of its
    /// bucket as it is. An outcome for an operation that is not in flight
    /// is handed back, and the books stay as they are.
    pub fn complete(&mut self, id: usize, outcome: Result<S, E>) -> (taken: Result<
        (),
        Result<S, E>,
    >)
        requires
            old(self).wf(),
        ensures
            final(self).wf(),
            final(self).total() == old(self).total(),
            final(self).limit() == old(self).limit(),
            final(self).started() == old(self).started(),
            taken is Ok <==> id < old(self).total() && old(self).slots()[id as int]
                == Slot::InFlight,
            taken is Ok ==> final(self).in_flight() == old(self).in_flight() - 1,
            taken is Ok ==> match outcome {
                Ok(value) => final(self).successes() == old(self).successes().push((id, value))
                    && final(self).failures() == old(self).failures() && final(self).slots()
                    == old(self).slots().update(id as int, Slot::Succeeded),
                Err(error) => final(self).failures() == old(self).failures().push((id, error))
                    && final(self).successes() == old(self).successes() && final(self).slots()
                    == old(self).slots().update(id as int, Slot::Failed),
            },
            taken matches Err(back) ==> back == outcome,
            taken is Err ==> final(self).in_flight() == old(self).in_flight(),
            taken is Err ==> final(self).slots() == old(self).slots(),
            taken is Err ==> final(self).successes() == old(self).successes(),
            taken is Err ==> final(self).failures() == old(self).failures(),
    {
        if id >= self.slots.len() {
            return Err(outcome);
        }
        match self.slots[id] {
            Slot::InFlight => {},
            _ => {
                return Err(outcome);
            },
        }
        let ghost good = bucket_ids(self.successes@);
        let ghost bad = bucket_ids(self.failures@);
        match outcome {
            Ok(value) => {
                proof {
                    lemma_count_update(self.slots@, id as int, Slot::Succeeded, Slot::InFlight);
                }
                self.slots.set(id, Slot::Succeeded);
                self.successes.push((id, value));
                self.in_flight = self.in_flight - 1;
                proof {
                    let ids = bucket_ids(self.successes@);
                    assert(ids =~= good.push(id));
                    lemma_bucket_takes(good, old(self).slots@, Slot::Succeeded, id);
                    lemma_bucket_keeps(bad, old(self).slots@, Slot::Failed, id, Slot::Succeeded);
                }
            },
            Err(error) => {
                proof {
                    lemma_count_update(self.slots@, id as int, Slot::Failed, Slot::InFlight);
                }
                self.slots.set(id, Slot::Failed);
                self.failures.push((id, error));
                self.in_flight = self.in_flight - 1;
                proof {
                    let ids = bucket_ids(self.failures@);
                    assert(ids =~= bad.push(id));
                    lemma_bucket_takes(bad, old(self).slots@, Slot::Failed, id);
                    lemma_bucket_keeps(good, old(self).slots@, Slot::Succeeded, id, Slot::Failed);
                }
            },
        }
        Ok(())
    }

    /// Closes the books: the success bucket and the failure bucket.
    pub fn finish(self) -> (buckets: (Vec<(usize, S)>, Vec<(usize, E)>))
        ensures
            buckets.0@ == self.successes(),
            buckets.1@ == self.failures(),
    {
        (self.successes, self.failures)
    }

    /// At every moment the books balance: no more operations are in flight
    /// than the limit allows, the number in flight is the number of
    /// operations that stand so, and every operation that was started is in
    /// flight or in one of the two buckets.
    pub proof fn lemma_books_balance(self)
        requires
            self.wf(),
        ensures
            self.limit() > 0,
            self.in_flight() <= self.limit(),
            self.in_flight() == count(self.slots(), Slot::InFlight),
            self.started() <= self.total(),
            self.successes().len() + self.failures().len() + self.in_flight() == self.started(),
            bucket_holds(bucket_ids(self.successes()), self.slots(), Slot::Succeeded),
            bucket_holds(bucket_ids(self.failures()), self.slots(), Slot::Failed),
            forall|i: int| 0 <= i < self.total() ==> (self.slots()[i] == Slot::Waiting <==> i
                >= self.started()),
    {
    }

    /// When every operation has ended, the two buckets part the operations
    /// between them: each operation is in exactly one bucket, once, and the
    /// buckets together hold as many as there are operations.
    pub proof fn lemma_done_parts(self)
        requires
            self.wf(),
            self.done(),
        ensures
            self.successes().len() + self.failures().len() == self.total(),
            forall|id: usize|
                id < self.total() ==> (#[trigger] bucket_ids(self.successes()).contains(id))
                    != bucket_ids(self.failures()).contains(id),
            bucket_ids(self.successes()).no_duplicates(),
            bucket_ids(self.failures()).no_duplicates(),
            forall|k: int|
                0 <= k < self.successes().len() ==> (#[trigger] self.successes()[k]).0
                    < self.total(),
            forall|k: int|
                0 <= k < self.failures().len() ==> (#[trigger] self.failures()[k]).0
                    < self.total(),
    {
        let good = bucket_ids(self.successes@);
        let bad = bucket_ids(self.failures@);
        lemma_count_none(self.slots@, Slot::InFlight);
        assert forall|id: usize| id < self.total() implies (#[trigger] good.contains(id))
            != bad.contains(id) by {
            let i = id as int;
            let slot = self.slots@[i];
            assert(slot != Slot::Waiting);
            assert(slot != Slot::InFlight);
            if slot == Slot::Succeeded {
                let k = choose|k: int| 0 <= k < good.len() && #[trigger] good[k] == i;
                assert(good[k] == i as usize);
                if bad.contains(i as usize) {
                    let j = choose|j: int| 0 <= j < bad.len() && bad[j] == i as usize;
                    assert(self.slots@[bad[j] as int] == Slot::Failed);
                }
            } else {
                assert(slot == Slot::Failed);
                let k = choose|k: int| 0 <= k < bad.len() && #[trigger] bad[k] == i;
                assert(bad[k] == i as usize);
                if good.contains(i as usize) {
                    let j = choose|j: int| 0 <= j < good.len() && good[j] == i as usize;
                    assert(self.slots@[good[j] as int] == Slot::Succeeded);
                }
            }
        }
        assert forall|k: int| 0 <= k < self.successes().len() implies (
        #[trigger] self.successes()[k]).0 < self.total() by {
            assert(good[k] == self.successes()[k].0);
        }
        assert forall|k: int| 0 <= k < self.failures().len() implies (
        #[trigger] self.failures()[k]).0 < self.total() by {
            assert(bad[k] == self.failures()[k].0);
        }
    }
}

/// Where no operation is counted at a standing, none stands there.
pub proof fn lemma_count_none(slots: Seq<Slot>, what: Slot)
    requires
        count(slots, what) == 0,
    ensures
        forall|i: int| 0 <= i < slots.len() ==> #[trigger] slots[i] != what,
    decreases slots.len(),
{
    if slots.len() > 0 {
        lemma_count_none(slots.drop_last(), what);
        assert forall|i: int| 0 <= i < slots.len() implies #[trigger] slots[i] != what by {
            if i < slots.len() - 1 {
                assert(slots.drop_last()[i] == slots[i]);
            }
        }
    }
}

/// A bucket that takes an operation which moves to the bucket's standing
/// holds the operations of that standing again.
proof fn lemma_bucket_takes(ids: Seq<usize>, slots: Seq<Slot>, what: Slot, id: usize)
    requires
        bucket_holds(ids, slots, what),
        id < slots.len(),
        slots[id as int] != what,
    ensures
        bucket_holds(ids.push(id), slots.update(id as int, what), what),
{
    let more = ids.push(id);
    let moved = slots.update(id as int, what);
    assert forall|k: int| 0 <= k < more.len() implies (#[trigger] more[k]) < moved.len()
        && moved[more[k] as int] == what by {
        if k < ids.len() {
            assert(ids[k] == more[k]);
        }
    }
    assert forall|j: int, k: int| 0 <= j < k < more.len() implies #[trigger] more[j]
        != #[trigger] more[k] by {
        assert(ids[j] == more[j]);
        if k < ids.len() {
            assert(ids[k] == more[k]);
        } else {
            assert(slots[ids[j] as int] == what);
        }
    }
    assert forall|i: int| 0 <= i < moved.len() && #[trigger] moved[i] == what implies exists|
        k: int,
    |
        0 <= k < more.len() && #[trigger] more[k] == i by {
        if i == id {
            assert(more[ids.len() as int] == i);
        } else {
            assert(slots[i] == what);
            let k = choose|k: int| 0 <= k < ids.len() && #[trigger] ids[k] == i;
            assert(more[k] == i);
        }
    }
}

/// A bucket stays right when an operation of another standing moves to
/// yet another standing.
proof fn lemma_bucket_keeps(ids: Seq<usize>, slots: Seq<Slot>, what: Slot, id: usize, to: Slot)
    requires
        bucket_holds(ids, slots, what),
        id < slots.len(),
        slots[id as int] != what,
        to != what,
    ensures
        bucket_holds(ids, slots.update(id as int, to), what),
{
    let moved = slots.update(id as int, to);
    assert forall|k: int| 0 <= k < ids.len() implies (#[trigger] ids[k]) < moved.len()
        && moved[ids[k] as int] == what by {
        assert(slots[ids[k] as int] == what);
    }
    assert forall|i: int| 0 <= i < moved.len() && #[trigger] moved[i] == what implies exists|
        k: int,
    |
        0 <= k < ids.len() && #[trigger] ids[k] == i by {
        assert(slots[i] == what);
    }
}

/// How many of the first `n` operations fail by the rule `fails`.
pub open spec fn failing(n: nat, fails: spec_fn(usize) -> bool) -> nat
    decreases n,
{
    if n == 0 {
        0
    } else {
        failing((n - 1) as nat, fails) + if fails((n - 1) as usize) {
            1nat
        } else {
            0nat
        }
    }
}

/// The operations among the first `n` that fail by the rule `fails`.
pub open spec fn failing_set(n: nat, fails: spec_fn(usize) -> bool) -> Set<usize> {
    Set::new(|id: usize| id < n && fails(id))
}

/// The operations among the first `n` that fail are as many as are counted.
proof fn lemma_failing_set_len(n: nat, fails: spec_fn(usize) -> bool)
    requires
        n <= usize::MAX + 1,
    ensures
        failing_set(n, fails).finite(),
        failing_set(n, fails).len() == failing(n, fails),
    decreases n,
{
    if n == 0 {
        assert(failing_set(n, fails) =~= Set::<usize>::empty());
    } else {
        let m = (n - 1) as nat;
        lemma_failing_set_len(m, fails);
        if fails(m as usize) {
            assert(failing_set(n, fails) =~= failing_set(m, fails).insert(m as usize));
        } else {
            assert(failing_set(n, fails) =~= failing_set(m, fails));
        }
    }
}

/// Where an operation fails exactly if its number, counted from one, is a
/// multiple of `d`, the failing ones among the first `n` are `n / d`.
pub proof fn lemma_failing_every(n: nat, d: nat, fails: spec_fn(usize) -> bool)
    requires
        d > 0,
        n <= usize::MAX + 1,
        forall|id: usize| #[trigger] fails(id) <==> (id + 1) % (d as int) == 0,
    ensures
        failing(n, fails) == n / d,
    decreases n,
{
    if n > 0 {
        let m = (n - 1) as nat;
        lemma_failing_every(m, d, fails);
        assert(fails(m as usize) <==> n % d == 0);
        assert(n / d == m / d + (if n % d == 0 {
            1nat
        } else {
            0nat
        })) by (nonlinear_arith)
            requires
                d > 0,
                n == m + 1,
        ;
    }
}

impl<S, E> Pipeline<S, E> {
    /// Where the outcomes followed a rule, so that every operation in the
    /// failure bucket fails by `fails` and none in the success bucket does,
    /// a finished run has sorted the operations by the rule: an operation
    /// is in the failure bucket exactly if it fails by the rule, else in the
    /// success bucket, and the buckets have the sizes that the rule gives.
    pub proof fn lemma_buckets_follow_rule(self, fails: spec_fn(usize) -> bool)
        requires
            self.wf(),
            self.done(),
            forall|k: int|
                0 <= k < self.failures().len() ==> fails((#[trigger] self.failures()[k]).0),
            forall|k: int|
                0 <= k < self.successes().len() ==> !fails((#[trigger] self.successes()[k]).0),
        ensures
            forall|id: usize|
                id < self.total() ==> (#[trigger] bucket_ids(self.failures()).contains(id)
                    <==> fails(id)),
            forall|id: usize|
                id < self.total() ==> (#[trigger] bucket_ids(self.successes()).contains(id)
                    <==> !fails(id)),
            self.failures().len() == failing(self.total(), fails),
            self.successes().len() == self.total() - failing(self.total(), fails),
    {
        self.lemma_done_parts();
        let good = bucket_ids(self.successes());
        let bad = bucket_ids(self.failures());
        let total = self.total();
        assert forall|id: usize| id < total implies (#[trigger] bad.contains(id) <==> fails(
            id,
        )) by {
            assert(good.contains(id) != bad.contains(id));
            if bad.contains(id) {
                let k = choose|k: int| 0 <= k < bad.len() && bad[k] == id;
                assert(self.failures()[k].0 == id);
            } else {
                let k = choose|k: int| 0 <= k < good.len() && good[k] == id;
                assert(self.successes()[k].0 == id);
            }
        }
        assert forall|id: usize| id < total implies (#[trigger] good.contains(id) <==> !fails(
            id,
        )) by {
            assert(good.contains(id) != bad.contains(id));
            assert(bad.contains(id) <==> fails(id));
        }
        assert(bad.to_set() =~= failing_set(total, fails)) by {
            assert forall|id: usize| bad.to_set().contains(id) implies failing_set(
                total,
                fails,
            ).contains(id) by {
                let k = choose|k: int| 0 <= k < bad.len() && bad[k] == id;
                assert(self.failures()[k].0 == id);
                assert(bad.contains(id) <==> fails(id));
            }
            assert forall|id: usize| failing_set(total, fails).contains(id) implies bad.to_set().contains(
                id,
            ) by {
                assert(bad.contains(id) <==> fails(id));
            }
        }
        bad.unique_seq_to_set();
        lemma_failing_set_len(total, fails);
    }
}

} // verus!
