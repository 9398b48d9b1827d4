use vstd::prelude::*;

verus! {

/// The state of one interpreter slot.
#[derive(Debug, Clone, Copy, PartialEq, Eq, Structural)]
pub enum SlotState {
    /// No instance built yet: the first checkout of the slot builds one.
    Vacant,
    Idle,
    Busy,
    /// Its instance failed fatally and waits to be replaced by a fresh one.
    Quarantined,
}

/// How an interpreter run ended, as far as the slot is concerned.
#[derive(Debug, Clone, Copy, PartialEq, Eq, Structural)]
pub enum RunOutcome {
    /// The interpreter returned, with any return code.
    Returned,
    /// The run exceeded its time budget and was abandoned.
    Timeout,
    /// Building the instance panicked.
    CreationPanic,
    /// The instance failed in a way that leaves it unusable.
    FatalInternal,
}

impl RunOutcome {
    /// Whether the slot's instance must be replaced after such a run.
    pub open spec fn spec_quarantines(self) -> bool {
        match self {
            RunOutcome::Returned => false,
            _ => true,
        }
    }

    pub fn quarantines(&self) -> (r: bool)
        ensures
            r == self.spec_quarantines(),
    {
        match self {
            RunOutcome::Returned => false,
            _ => true,
        }
    }
}

/// A slot lent out by `checkout`.
#[derive(Debug, Clone, Copy, PartialEq, Eq, Structural)]
pub struct Checkout {
    pub slot: usize,
    /// The slot had no instance yet: the borrower builds one.
    pub create: bool,
}

/// A fixed set of interpreter slots, lent out one run at a time.
pub struct VmPool {
    slots: Vec<SlotState>,
}

impl View for VmPool {
    type V = Seq<SlotState>;

    closed spec fn view(&self) -> Seq<SlotState> {
        self.slots@
    }
}

pub open spec fn has_state(s: Seq<SlotState>, st: SlotState) -> bool {
    exists|i: int| 0 <= i < s.len() && s[i] == st
}

impl VmPool {
    /// A pool of `size` slots, none built yet.
    pub fn new(size: usize) -> (r: VmPool)
        ensures
            r@ == Seq::new(size as nat, |i: int| SlotState::Vacant),
    {
        let mut slots: Vec<SlotState> = Vec::new();
        let mut i: usize = 0;
        while i < size
            invariant
                i <= size,
                slots@ == Seq::new(i as nat, |j: int| SlotState::Vacant),
            decreases size - i,
        {
            slots.push(SlotState::Vacant);
            i += 1;
            assert(slots@ =~= Seq::new(i as nat, |j: int| SlotState::Vacant));
        }
        VmPool { slots }
    }

    /// The number of slots, whatever their state.
    pub fn size(&self) -> (r: usize)
        ensures
            r == self@.len(),
    {
        self.slots.len()
    }

    pub fn state(&self, slot: usize) -> (r: SlotState)
        requires
            slot < self@.len(),
        ensures
            r == self@[slot as int],
    {
        self.slots[slot]
    }

    fn find(&self, st: SlotState) -> (r: Option<usize>)
        ensures
            match r {
                Some(i) => i < self@.len() && self@[i as int] == st,
                None => !has_state(self@, st),
            },
    {
        let mut i: usize = 0;
        while i < self.slots.len()
            invariant
                i <= self.slots.len(),
                forall|j: int| 0 <= j < i ==> self@[j] != st,
            decreases self.slots.len() - i,
        {
            if self.slots[i] == st {
                return Some(i);
            }
            i += 1;
        }
        None
    }

    /// Lends out an idle slot, or else one not built yet; `None` when every slot is
    /// busy or quarantined, and the borrower waits.
    pub fn checkout(&mut self) -> (r: Option<Checkout>)
        ensures
            final(self)@.len() == old(self)@.len(),
            match r {
                Some(c) => {
                    &&& c.slot < old(self)@.len()
                    &&& if has_state(old(self)@, SlotState::Idle) {
                        old(self)@[c.slot as int] == SlotState::Idle && !c.create
                    } else {
                        old(self)@[c.slot as int] == SlotState::Vacant && c.create
                    }
                    &&& final(self)@ == old(self)@.update(c.slot as int, SlotState::Busy)
                },
                None => {
                    &&& !has_state(old(self)@, SlotState::Idle)
                    &&& !has_state(old(self)@, SlotState::Vacant)
                    &&& final(self)@ == old(self)@
                },
            },
    {
        let pick = match self.find(SlotState::Idle) {
            Some(i) => Some(Checkout { slot: i, create: false }),
            None => match self.find(SlotState::Vacant) {
                Some(i) => Some(Checkout { slot: i, create: true }),
                None => None,
            },
        };
        match pick {
            Some(c) => {
                self.slots.set(c.slot, SlotState::Busy);
                Some(c)
            },
            None => None,
        }
    }

    /// Takes back a lent slot after a run: it is idle again, or quarantined when the
    /// run's outcome leaves its instance unusable. Returns whether it was quarantined.
    pub fn release(&mut self, slot: usize, outcome: RunOutcome) -> (r: bool)
        requires
            slot < old(self)@.len(),
            old(self)@[slot as int] == SlotState::Busy,
        ensures
            r == outcome.spec_quarantines(),
            final(self)@ == old(self)@.update(
                slot as int,
                if r {
                    SlotState::Quarantined
                } else {
                    SlotState::Idle
                },
            ),
    {
        let q = outcome.quarantines();
        if q {
            self.slots.set(slot, SlotState::Quarantined);
        } else {
            self.slots.set(slot, SlotState::Idle);
        }
        q
    }

    /// Puts a quarantined slot back in service once a fresh instance replaces the old.
    pub fn restore(&mut self, slot: usize)
        requires
            slot < old(self)@.len(),
            old(self)@[slot as int] == SlotState::Quarantined,
        ensures
            final(self)@ == old(self)@.update(slot as int, SlotState::Idle),
    {
        self.slots.set(slot, SlotState::Idle);
    }
}

} // verus!

verus! {

/// The pool keeps its size: `checkout`, `release` and `restore` each set one slot to a
/// state other than `Vacant`, so the number of slots never changes and a slot, once
/// built, holds an instance (idle, busy or awaiting its replacement) from then on.
pub proof fn lemma_pool_keeps_its_slots(s: Seq<SlotState>, slot: int, st: SlotState)
    requires
        0 <= slot < s.len(),
        st != SlotState::Vacant,
    ensures
        s.update(slot, st).len() == s.len(),
        forall|j: int|
            0 <= j < s.len() && #[trigger] s.update(slot, st)[j] == SlotState::Vacant ==> s[j]
                == SlotState::Vacant,
{
}

} // verus!
