use vstd::prelude::*;

verus! {

/// A counting pool of connection slots shared by every scan task.
#[derive(Debug)]
pub struct ConnectionBudget {
    pub capacity: usize,
    pub in_use: usize,
}

/// One attempt to take a slot: granted exactly when one is free.
pub open spec fn attempt_step(b: ConnectionBudget) -> (ConnectionBudget, bool) {
    if b.in_use < b.capacity {
        (ConnectionBudget { capacity: b.capacity, in_use: (b.in_use + 1) as usize }, true)
    } else {
        (b, false)
    }
}

/// Giving a slot back; with none taken there is nothing to give back.
pub open spec fn release_step(b: ConnectionBudget) -> ConnectionBudget {
    if b.in_use > 0 {
        ConnectionBudget { capacity: b.capacity, in_use: (b.in_use - 1) as usize }
    } else {
        b
    }
}

/// The budget after a sequence of operations: `true` takes a slot if one is
/// free, `false` gives one back.
pub open spec fn run_ops(b: ConnectionBudget, ops: Seq<bool>) -> ConnectionBudget
    decreases ops.len(),
{
    if ops.len() == 0 {
        b
    } else {
        let prev = run_ops(b, ops.drop_last());
        if ops.last() {
            attempt_step(prev).0
        } else {
            release_step(prev)
        }
    }
}

/// How many of `n` attempts, with no slot given back meanwhile, are granted.
pub open spec fn granted_of(b: ConnectionBudget, n: nat) -> nat
    decreases n,
{
    if n == 0 {
        0
    } else {
        let prev = run_ops(b, Seq::new((n - 1) as nat, |i: int| true));
        granted_of(b, (n - 1) as nat) + if attempt_step(prev).1 { 1nat } else { 0nat }
    }
}

impl ConnectionBudget {
    /// Slots in use never exceed the capacity.
    pub open spec fn wf(&self) -> bool {
        self.in_use <= self.capacity
    }

    /// A budget of `capacity` slots, all free.
    pub fn new(capacity: usize) -> (r: Self)
        ensures
            r.wf(),
            r.capacity == capacity,
            r.in_use == 0,
    {
        ConnectionBudget { capacity, in_use: 0 }
    }

    /// The number of free slots.
    pub fn available(&self) -> (r: usize)
        requires
            self.wf(),
        ensures
            r == self.capacity - self.in_use,
    {
        self.capacity - self.in_use
    }

    /// Takes a slot if one is free, and says whether it did.
    pub fn try_acquire(&mut self) -> (r: bool)
        requires
            old(self).wf(),
        ensures
            final(self).wf(),
            (*final(self), r) == attempt_step(*old(self)),
    {
        if self.in_use < self.capacity {
            self.in_use = self.in_use + 1;
            true
        } else {
            false
        }
    }

    /// Gives back a slot that an earlier `try_acquire` took.
    pub fn release(&mut self)
        requires
            old(self).wf(),
            old(self).in_use > 0,
        ensures
            final(self).wf(),
            *final(self) == release_step(*old(self)),
    {
        self.in_use = self.in_use - 1;
    }
}

/// Whatever the order of attempts and releases, slots in use never exceed the capacity.
pub proof fn lemma_budget_never_exceeded(b: ConnectionBudget, ops: Seq<bool>)
    requires
        b.wf(),
    ensures
        run_ops(b, ops).wf(),
        run_ops(b, ops).capacity == b.capacity,
    decreases ops.len(),
{
    if ops.len() > 0 {
        lemma_budget_never_exceeded(b, ops.drop_last());
    }
}

/// Of `capacity + extra` attempts on a fresh budget with nothing given back,
/// exactly `capacity` are granted, and then every slot is in use.
pub proof fn lemma_overflow_refused(capacity: usize, extra: nat)
    ensures
        granted_of(ConnectionBudget { capacity, in_use: 0 }, (capacity + extra) as nat) == capacity,
        run_ops(
            ConnectionBudget { capacity, in_use: 0 },
            Seq::new((capacity + extra) as nat, |i: int| true),
        ).in_use == capacity,
{
    let b = ConnectionBudget { capacity, in_use: 0 };
    lemma_attempts(b, (capacity + extra) as nat);
}

proof fn lemma_attempts(b: ConnectionBudget, n: nat)
    requires
        b.in_use == 0,
    ensures
        run_ops(b, Seq::new(n, |i: int| true)) == (ConnectionBudget {
            capacity: b.capacity,
            in_use: if n <= b.capacity { n as usize } else { b.capacity },
        }),
        granted_of(b, n) == if n <= b.capacity { n } else { b.capacity as nat },
    decreases n,
{
    if n > 0 {
        lemma_attempts(b, (n - 1) as nat);
        assert(Seq::new(n, |i: int| true).drop_last() =~= Seq::new((n - 1) as nat, |i: int| true));
    }
}

} // verus!
