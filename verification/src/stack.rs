//! The bookkeeping of the screen stack, as a mathematical model.
//!
//! Navigation only records what is wanted: pushes and pops change the
//! desired stack and a marker, the dirty offset, below which nothing has
//! changed since the stacks were last reconciled. A tick reconciles: it drops
//! every committed entry from the offset up and commits every desired entry
//! from the offset up. Every push gets a ticket of its own, so an entry that
//! was popped and pushed again is a new entry.

use vstd::prelude::*;

verus! {

/// The two stacks by the tickets of their entries, bottom first.
pub struct StackModel {
    /// The stack that navigation asked for.
    pub desired: Seq<nat>,
    /// The stack that the last tick made live.
    pub committed: Seq<nat>,
    /// The dirty offset, where one is set.
    pub lowest: Option<nat>,
    /// The ticket that the next push gets.
    pub next: nat,
}

/// One step of navigation.
pub enum NavOp {
    Push,
    Pop,
}

/// The lesser of an offset that may be unset and an index.
pub open spec fn lowered(lowest: Option<nat>, index: nat) -> nat {
    match lowest {
        Some(current) => if index < current {
            index
        } else {
            current
        },
        None => index,
    }
}

/// Whether `index` is the first place where `a` and `b` differ: below it
/// they agree, and at it they hold different entries or only one has one.
pub open spec fn first_difference(a: Seq<nat>, b: Seq<nat>, index: nat) -> bool {
    &&& index <= a.len()
    &&& index <= b.len()
    &&& a.take(index as int) == b.take(index as int)
    &&& if index < a.len() && index < b.len() {
        a[index as int] != b[index as int]
    } else {
        a.len() != b.len()
    }
}

impl StackModel {
    /// No screens, nothing pending.
    pub open spec fn empty() -> StackModel {
        StackModel { desired: Seq::empty(), committed: Seq::empty(), lowest: None, next: 0 }
    }

    /// The model after a push: the new entry is on top of the desired stack,
    /// and an unset offset is set to its index. A set offset stays.
    pub open spec fn push(self) -> StackModel {
        StackModel {
            desired: self.desired.push(self.next),
            committed: self.committed,
            lowest: match self.lowest {
                Some(current) => Some(current),
                None => Some(self.desired.len()),
            },
            next: self.next + 1,
        }
    }

    /// The model after a pop: the top of the desired stack is gone and the
    /// offset is lowered to the new length. On an empty stack nothing changes.
    pub open spec fn pop(self) -> StackModel {
        if self.desired.len() == 0 {
            self
        } else {
            StackModel {
                desired: self.desired.drop_last(),
                committed: self.committed,
                lowest: Some(lowered(self.lowest, (self.desired.len() - 1) as nat)),
                next: self.next,
            }
        }
    }

    /// The model after `count` pops.
    pub open spec fn pop_times(self, count: nat) -> StackModel
        decreases count,
    {
        if count == 0 {
            self
        } else {
            self.pop().pop_times((count - 1) as nat)
        }
    }

    /// The model after one step of navigation.
    pub open spec fn step(self, op: NavOp) -> StackModel {
        match op {
            NavOp::Push => self.push(),
            NavOp::Pop => self.pop(),
        }
    }

    /// The model after the steps `ops`, in order.
    pub open spec fn navigate(self, ops: Seq<NavOp>) -> StackModel
        decreases ops.len(),
    {
        if ops.len() == 0 {
            self
        } else {
            self.navigate(ops.drop_last()).step(ops.last())
        }
    }

    /// The model after a tick: the desired stack is the committed one and no
    /// offset is set.
    pub open spec fn settle(self) -> StackModel {
        StackModel {
            desired: self.desired,
            committed: self.desired,
            lowest: None,
            next: self.next,
        }
    }

    /// What holds between any two operations:
    /// - tickets ascend in both stacks and are below the next ticket;
    /// - without an offset the stacks are equal;
    /// - with an offset, the stacks agree below it, it exceeds neither
    ///   stack's length, and every desired entry from it up is newer than
    ///   every committed entry.
    pub open spec fn wf(self) -> bool {
        &&& forall|i: int| 0 <= i < self.desired.len() ==> (#[trigger] self.desired[i]) < self.next
        &&& forall|i: int|
            0 <= i < self.committed.len() ==> (#[trigger] self.committed[i]) < self.next
        &&& forall|i: int, j: int|
            0 <= i < j < self.desired.len() ==> (#[trigger] self.desired[i]) < (
            #[trigger] self.desired[j])
        &&& forall|i: int, j: int|
            0 <= i < j < self.committed.len() ==> (#[trigger] self.committed[i]) < (
            #[trigger] self.committed[j])
        &&& match self.lowest {
            None => self.desired == self.committed,
            Some(k) => {
                &&& k <= self.desired.len()
                &&& k <= self.committed.len()
                &&& self.desired.take(k as int) == self.committed.take(k as int)
                &&& forall|i: int, j: int|
                    k <= j < self.desired.len() && 0 <= i < self.committed.len() ==> (
                    #[trigger] self.committed[i]) < (#[trigger] self.desired[j])
            },
        }
    }

    /// The empty model is well-formed.
    pub proof fn lemma_empty_wf()
        ensures
            Self::empty().wf(),
    {
    }

    /// A push keeps the model well-formed.
    pub proof fn lemma_push_wf(self)
        requires
            self.wf(),
        ensures
            self.push().wf(),
    {
        let after = self.push();
        match self.lowest {
            None => {
                let k = self.desired.len() as int;
                assert(after.desired.take(k) =~= self.desired);
                assert(after.committed.take(k) =~= self.committed);
            },
            Some(k) => {
                assert(after.desired.take(k as int) =~= self.desired.take(k as int));
            },
        }
    }

    /// A pop keeps the model well-formed.
    pub proof fn lemma_pop_wf(self)
        requires
            self.wf(),
        ensures
            self.pop().wf(),
    {
        if self.desired.len() > 0 {
            let after = self.pop();
            let k = lowered(self.lowest, (self.desired.len() - 1) as nat) as int;
            match self.lowest {
                None => {
                    assert(after.desired.take(k) =~= after.committed.take(k));
                },
                Some(old_k) => {
                    assert(after.desired.take(k) =~= self.desired.take(old_k as int).take(k));
                    assert(after.committed.take(k) =~= self.committed.take(old_k as int).take(k));
                },
            }
        }
    }

    /// A tick keeps the model well-formed.
    pub proof fn lemma_settle_wf(self)
        requires
            self.wf(),
        ensures
            self.settle().wf(),
    {
    }

    /// Navigation keeps the model well-formed and leaves the committed
    /// stack alone.
    pub proof fn lemma_navigate_wf(self, ops: Seq<NavOp>)
        requires
            self.wf(),
        ensures
            self.navigate(ops).wf(),
            self.navigate(ops).committed == self.committed,
        decreases ops.len(),
    {
        if ops.len() > 0 {
            self.lemma_navigate_wf(ops.drop_last());
            let before = self.navigate(ops.drop_last());
            match ops.last() {
                NavOp::Push => before.lemma_push_wf(),
                NavOp::Pop => before.lemma_pop_wf(),
            }
        }
    }

    /// Whatever is pushed and popped between two ticks: where that leaves
    /// the desired stack different from the stack committed by the first
    /// tick, the dirty offset is the first place where the two differ; and
    /// the second tick makes the desired stack the committed one.
    pub proof fn lemma_stack_monotonicity(self, ops: Seq<NavOp>)
        requires
            self.wf(),
        ensures
            ({
                let ticked = self.settle();
                let navigated = ticked.navigate(ops);
                &&& navigated.committed == ticked.committed
                &&& navigated.lowest is None ==> navigated.desired == ticked.committed
                &&& navigated.desired != ticked.committed ==> navigated.lowest is Some
                    && first_difference(navigated.desired, ticked.committed, navigated.lowest->0)
                &&& navigated.settle().desired == navigated.settle().committed
                &&& navigated.settle().desired == navigated.desired
                &&& navigated.settle().lowest is None
            }),
    {
        let ticked = self.settle();
        self.lemma_settle_wf();
        ticked.lemma_navigate_wf(ops);
        ticked.navigate(ops).lemma_offset_is_first_difference();
    }

    /// Pushes and pops only ever lower the dirty offset: once it is set, it
    /// is set after either, and not higher.
    pub proof fn lemma_offset_only_lowers(self)
        requires
            self.lowest is Some,
        ensures
            self.push().lowest is Some,
            self.push().lowest->0 <= self.lowest->0,
            self.pop().lowest is Some,
            self.pop().lowest->0 <= self.lowest->0,
    {
    }

    /// Popping an empty stack any number of times changes nothing.
    pub proof fn lemma_pop_empty_is_noop(self, count: nat)
        requires
            self.desired.len() == 0,
        ensures
            self.pop_times(count) == self,
        decreases count,
    {
        if count > 0 {
            self.pop().lemma_pop_empty_is_noop((count - 1) as nat);
        }
    }

    /// After a tick the desired and the committed stack are the same, and no
    /// offset is set.
    pub proof fn lemma_settle_reconciles(self)
        ensures
            self.settle().desired == self.settle().committed,
            self.settle().desired == self.desired,
            self.settle().lowest is None,
    {
    }

    /// Where the stacks differ, the dirty offset is the first place where
    /// they do; where no offset is set they do not differ.
    pub proof fn lemma_offset_is_first_difference(self)
        requires
            self.wf(),
        ensures
            self.lowest is None ==> self.desired == self.committed,
            self.lowest is Some && self.desired != self.committed ==> first_difference(
                self.desired,
                self.committed,
                self.lowest->0,
            ),
    {
        if self.lowest is Some && self.desired != self.committed {
            let k = self.lowest->0 as int;
            if k < self.desired.len() && k < self.committed.len() {
                assert(self.committed[k] < self.desired[k]);
            } else if self.desired.len() == self.committed.len() {
                assert(self.desired.take(k) =~= self.desired);
                assert(self.committed.take(k) =~= self.committed);
            }
        }
    }
}

} // verus!
