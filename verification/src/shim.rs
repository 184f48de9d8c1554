use vstd::prelude::*;

verus! {

/// Who is at work on an [`AtomicWaker`].
#[derive(Clone, Copy, PartialEq, Eq, Structural, Debug)]
pub enum WakerState {
    /// Nobody.
    Waiting,
    /// A registration has stored its waker and not yet let go of the cell.
    Registering,
    /// A take holds the cell.
    Waking,
    /// A take came in while a registration held the cell; the registration delivers the
    /// wake-up.
    RegisteringWaking,
}

/// Who holds the cell after a wake-up was announced.
pub open spec fn take_began(s: WakerState) -> WakerState {
    match s {
        WakerState::Waiting => WakerState::Waking,
        WakerState::Registering => WakerState::RegisteringWaking,
        s => s,
    }
}

/// How a registration began.
pub enum Registration<W> {
    /// The waker is stored; [`AtomicWaker::finish_register`] is owed.
    Stored,
    /// A take is in flight: wake this waker at once.
    WakeNow(W),
    /// Another registration holds the cell: this one is dropped.
    Dropped,
}

/// A cell for one waker, shared by the task that waits and the party that wakes it.
///
/// Both registering and taking go in two steps, so that the steps of different parties
/// may come in any order. `register` and `take` do both steps at once.
pub struct AtomicWaker<W> {
    state: WakerState,
    waker: Option<W>,
}

impl<W> AtomicWaker<W> {
    /// Who holds the cell.
    pub closed spec fn state(&self) -> WakerState {
        self.state
    }

    /// The stored waker.
    pub closed spec fn stored(&self) -> Option<W> {
        self.waker
    }

    /// A registration in flight has stored its waker.
    pub open spec fn wf(&self) -> bool {
        (self.state() is Registering || self.state() is RegisteringWaking) ==> self.stored() is Some
    }

    /// An empty cell that nobody holds.
    pub fn new() -> (a: Self)
        ensures
            a.wf(),
            a.state() is Waiting,
            a.stored() is None,
    {
        AtomicWaker { state: WakerState::Waiting, waker: None }
    }

    /// Starts to store `waker`.
    pub fn begin_register(&mut self, waker: W) -> (r: Registration<W>)
        requires
            old(self).wf(),
        ensures
            final(self).wf(),
            match old(self).state() {
                WakerState::Waiting => {
                    &&& r is Stored
                    &&& final(self).state() is Registering
                    &&& final(self).stored() == Some(waker)
                },
                WakerState::Waking => r == Registration::WakeNow(waker) && *final(self) == *old(self),
                _ => r is Dropped && *final(self) == *old(self),
            },
    {
        match self.state {
            WakerState::Waiting => {
                self.state = WakerState::Registering;
                self.waker = Some(waker);
                Registration::Stored
            },
            WakerState::Waking => Registration::WakeNow(waker),
            _ => Registration::Dropped,
        }
    }

    /// Lets go of the cell after a registration. If a take came in meanwhile, hands out
    /// the stored waker: the wake-up is the caller's to deliver.
    pub fn finish_register(&mut self) -> (r: Option<W>)
        requires
            old(self).wf(),
            old(self).state() is Registering || old(self).state() is RegisteringWaking,
        ensures
            final(self).wf(),
            final(self).state() is Waiting,
            old(self).state() is Registering ==> r is None && final(self).stored() == old(self).stored(),
            old(self).state() is RegisteringWaking ==> {
                &&& r is Some
                &&& r == old(self).stored()
                &&& final(self).stored() is None
            },
    {
        match self.state {
            WakerState::RegisteringWaking => {
                self.state = WakerState::Waiting;
                self.waker.take()
            },
            _ => {
                self.state = WakerState::Waiting;
                None
            },
        }
    }

    /// Announces a wake-up; `true` if the caller now holds the cell and owes
    /// [`AtomicWaker::finish_take`].
    pub fn begin_take(&mut self) -> (r: bool)
        requires
            old(self).wf(),
        ensures
            final(self).wf(),
            final(self).stored() == old(self).stored(),
            r == (old(self).state() is Waiting),
            final(self).state() == take_began(old(self).state()),
    {
        match self.state {
            WakerState::Waiting => {
                self.state = WakerState::Waking;
                true
            },
            WakerState::Registering => {
                self.state = WakerState::RegisteringWaking;
                false
            },
            _ => false,
        }
    }

    /// Takes the waker out and lets go of the cell.
    pub fn finish_take(&mut self) -> (r: Option<W>)
        requires
            old(self).wf(),
            old(self).state() is Waking,
        ensures
            final(self).wf(),
            final(self).state() is Waiting,
            final(self).stored() is None,
            r == old(self).stored(),
    {
        self.state = WakerState::Waiting;
        self.waker.take()
    }

    /// Stores `waker`. Hands out the waker that the caller has to wake, if a take came in
    /// between.
    pub fn register(&mut self, waker: W) -> (r: Option<W>)
        requires
            old(self).wf(),
        ensures
            final(self).wf(),
            final(self).state() == old(self).state(),
            old(self).state() is Waiting ==> r is None && final(self).stored() == Some(waker),
            old(self).state() is Waking ==> r == Some(waker) && *final(self) == *old(self),
            !(old(self).state() is Waiting || old(self).state() is Waking) ==> r is None
                && *final(self) == *old(self),
    {
        match self.begin_register(waker) {
            Registration::Stored => self.finish_register(),
            Registration::WakeNow(w) => Some(w),
            Registration::Dropped => None,
        }
    }

    /// Takes the waker out, if nobody else holds the cell.
    pub fn take(&mut self) -> (r: Option<W>)
        requires
            old(self).wf(),
        ensures
            final(self).wf(),
            old(self).state() is Waiting ==> {
                &&& r == old(self).stored()
                &&& final(self).state() is Waiting
                &&& final(self).stored() is None
            },
            !(old(self).state() is Waiting) ==> {
                &&& r is None
                &&& final(self).stored() == old(self).stored()
                &&& final(self).state() == if old(self).state() is Registering {
                    WakerState::RegisteringWaking
                } else {
                    old(self).state()
                }
            },
    {
        if self.begin_take() {
            self.finish_take()
        } else {
            None
        }
    }
}

/// A wake-up is never lost between the steps of a registration: whenever it is announced,
/// either the one who announced it holds the cell and takes the waker, or somebody else who
/// holds the cell delivers it.
pub proof fn law_wake_up_is_delivered(s: WakerState)
    ensures
        s is Waiting ==> take_began(s) is Waking,
        s is Registering ==> take_began(s) is RegisteringWaking,
        take_began(s) is Waking || take_began(s) is RegisteringWaking,
{
}

} // verus!
